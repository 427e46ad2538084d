//! Placing models into the memory of one machine and handing them to tasks.
//!
//! The scheduler decides; loading, unloading and generating happen outside. A
//! request for a model gives an [`Effect`]: a session, a refusal, or a load or
//! unload to be carried out, whose outcome is handed back and gives the next
//! effect. While such a placement is under way no other one begins.

use crate::capability_registry;
use crate::capability_registry::{CapabilityEntry, CapabilityRegistry};
use crate::clock::Timestamp;
use crate::keyed;
use crate::keyed::Keyed;
use crate::model_backend::GenerateRequest;
use crate::resource_registry;
use crate::resource_registry::{ResourceEntry, ResourceRegistry, Temperature};
use crate::text;
use vstd::prelude::*;

verus! {

broadcast use text::texts_push;

/// A model by its label.
pub type ModelId = String;

/// How many tasks are served at a time.
pub const MAX_CONCURRENT_TASKS: usize = 2;

/// Whether a model fits: what is taken and what is needed stay within the
/// budget.
pub open spec fn fits(used_mb: nat, needed_mb: nat, budget_mb: nat) -> bool {
    used_mb + needed_mb <= budget_mb
}

/// Whether a model fits into the memory budget. Placement and the report on
/// reachability both go by this.
pub fn fits_in_budget(used_mb: u32, needed_mb: u32, budget_mb: u32) -> (r: bool)
    requires
        used_mb + needed_mb <= u32::MAX,
    ensures
        r == fits(used_mb as nat, needed_mb as nat, budget_mb as nat),
{
    used_mb + needed_mb <= budget_mb
}

/// Why the candidates before the chosen one were passed over; nothing where
/// there were none.
pub open spec fn rejected_text(rejected: Seq<Seq<char>>) -> Seq<char> {
    if rejected.len() == 0 {
        Seq::empty()
    } else {
        "; пропущены — "@ + text::joined(rejected, "; "@)
    }
}

/// Why the candidates before the chosen one were passed over.
pub fn describe_rejected(rejected: &Vec<String>) -> (r: String)
    ensures
        r@ == rejected_text(text::texts(rejected@)),
{
    if rejected.len() == 0 {
        String::new()
    } else {
        let mut s = String::from_str("; пропущены — ");
        let list = text::join(rejected, "; ");
        s.append(list.as_str());
        s
    }
}

/// A mark that a generation runs on a model. It is given back to the scheduler
/// when the generation is over, however it ended.
pub struct GenerationGuard {
    model: ModelId,
}

impl GenerationGuard {
    /// The marked model.
    pub closed spec fn of(&self) -> Seq<char> {
        self.model@
    }
}

/// A model taken for one task. It cannot be evicted before the session is
/// closed, also between two requests to it.
pub struct Session {
    model_id: ModelId,
    guard: GenerationGuard,
}

impl Session {
    /// The model of the session.
    pub closed spec fn of(&self) -> Seq<char> {
        self.model_id@
    }

    /// The model that is marked as busy for the session.
    pub closed spec fn marks(&self) -> Seq<char> {
        self.guard.of()
    }

    /// The model of the session.
    pub fn model(&self) -> (r: &str)
        ensures
            r@ == self.of(),
    {
        self.model_id.as_str()
    }
}

/// What is being done right now.
pub struct ActiveOperation {
    /// Loading or unloading, in the words of the status page.
    pub kind: &'static str,
    /// The model it is done to.
    pub model: ModelId,
    /// What it is done for: a category, or the model's label.
    pub reason: String,
    pub started_at: Timestamp,
}

/// An operation by its characters.
#[verifier::ext_equal]
pub struct OperationView {
    pub kind: Seq<char>,
    pub model: Seq<char>,
    pub reason: Seq<char>,
    pub started_at: Timestamp,
}

impl View for ActiveOperation {
    type V = OperationView;

    open spec fn view(&self) -> OperationView {
        OperationView {
            kind: self.kind@,
            model: self.model@,
            reason: self.reason@,
            started_at: self.started_at,
        }
    }
}

/// The word for loading.
pub const LOADING: &'static str = "загрузка";

/// The word for unloading.
pub const UNLOADING: &'static str = "выгрузка";

/// What a model is wanted for.
pub enum Subject {
    /// A task of a category.
    Category(String),
    /// A service call of a named model.
    Model(String),
}

/// A subject by its characters.
#[verifier::ext_equal]
pub enum SubjectView {
    Category(Seq<char>),
    Model(Seq<char>),
}

impl View for Subject {
    type V = SubjectView;

    open spec fn view(&self) -> SubjectView {
        match self {
            Subject::Category(c) => SubjectView::Category(c@),
            Subject::Model(m) => SubjectView::Model(m@),
        }
    }
}

impl SubjectView {
    /// The category or the label.
    pub open spec fn name(self) -> Seq<char> {
        match self {
            SubjectView::Category(c) => c,
            SubjectView::Model(m) => m,
        }
    }

    /// What is said when no model could be placed.
    pub open spec fn no_model(self) -> Seq<char> {
        match self {
            SubjectView::Category(c) => "не удалось подобрать модель для категории '"@ + c
                + "': не хватает VRAM у всех кандидатов или backend недоступен"@,
            SubjectView::Model(m) => "не удалось разместить модель '"@ + m + "' в VRAM"@,
        }
    }

    /// What is said when the limit was reached in the meantime.
    pub open spec fn limit_reached(self) -> Seq<char> {
        match self {
            SubjectView::Category(_) => "предел одновременных задач (2) исчерпан"@,
            SubjectView::Model(_) => "предел одновременных задач (2)"@,
        }
    }
}

impl Subject {
    fn name(&self) -> (r: &str)
        ensures
            r@ == self@.name(),
    {
        match self {
            Subject::Category(c) => c.as_str(),
            Subject::Model(m) => m.as_str(),
        }
    }

    fn no_model(&self) -> (r: String)
        ensures
            r@ == self@.no_model(),
    {
        match self {
            Subject::Category(c) => {
                let mut s = String::from_str("не удалось подобрать модель для категории '");
                s.append(c.as_str());
                s.append("': не хватает VRAM у всех кандидатов или backend недоступен");
                s
            },
            Subject::Model(m) => {
                let mut s = String::from_str("не удалось разместить модель '");
                s.append(m.as_str());
                s.append("' в VRAM");
                s
            },
        }
    }

    fn limit_reached(&self) -> (r: String)
        ensures
            r@ == self@.limit_reached(),
    {
        match self {
            Subject::Category(_) => String::from_str("предел одновременных задач (2) исчерпан"),
            Subject::Model(_) => String::from_str("предел одновременных задач (2)"),
        }
    }
}

/// What a placement waits for.
pub enum Stage {
    /// The current candidate is being loaded.
    Loading,
    /// A model is being unloaded to make room for the current candidate.
    Unloading(ModelId),
}

/// A stage by its characters.
#[verifier::ext_equal]
pub enum StageView {
    Loading,
    Unloading(Seq<char>),
}

impl View for Stage {
    type V = StageView;

    open spec fn view(&self) -> StageView {
        match self {
            Stage::Loading => StageView::Loading,
            Stage::Unloading(m) => StageView::Unloading(m@),
        }
    }
}

/// The search for a model that can be had: which candidates there are, which
/// one is being placed, and why the ones before it were passed over.
pub struct Search {
    subject: Subject,
    candidates: Vec<ModelId>,
    position: usize,
    rejected: Vec<String>,
}

/// A search by its characters.
#[verifier::ext_equal]
pub struct SearchView {
    pub subject: SubjectView,
    pub candidates: Seq<Seq<char>>,
    pub position: int,
    pub rejected: Seq<Seq<char>>,
}

impl View for Search {
    type V = SearchView;

    closed spec fn view(&self) -> SearchView {
        SearchView {
            subject: self.subject@,
            candidates: text::texts(self.candidates@),
            position: self.position as int,
            rejected: text::texts(self.rejected@),
        }
    }
}

/// A placement under way.
pub struct Placement {
    search: Search,
    stage: Stage,
}

/// A placement by its characters.
#[verifier::ext_equal]
pub struct PlacementView {
    pub search: SearchView,
    pub stage: StageView,
}

impl View for Placement {
    type V = PlacementView;

    closed spec fn view(&self) -> PlacementView {
        PlacementView { search: self.search@, stage: self.stage@ }
    }
}

/// What is to be done next for a request.
pub enum Effect {
    /// Load a model, known to the provider by `key`, and report the outcome.
    Load { model: ModelId, key: String },
    /// Unload a model, known to the provider by `key`, and report the outcome.
    Unload { model: ModelId, key: String },
    /// The request has its model.
    Ready(Session),
    /// The request is refused.
    Refused(String),
}

/// An effect by its characters.
#[verifier::ext_equal]
pub enum EffectView {
    Load { model: Seq<char>, key: Seq<char> },
    Unload { model: Seq<char>, key: Seq<char> },
    Ready { model: Seq<char>, marks: Seq<char> },
    Refused(Seq<char>),
}

impl View for Effect {
    type V = EffectView;

    open spec fn view(&self) -> EffectView {
        match self {
            Effect::Load { model, key } => EffectView::Load { model: model@, key: key@ },
            Effect::Unload { model, key } => EffectView::Unload { model: model@, key: key@ },
            Effect::Ready(s) => EffectView::Ready { model: s.of(), marks: s.marks() },
            Effect::Refused(reason) => EffectView::Refused(reason@),
        }
    }
}

/// The scheduler's state.
#[verifier::ext_equal]
pub struct SchedulerView {
    /// The categories and their models.
    pub categories: Map<Seq<char>, CapabilityEntry>,
    /// The models and what they cost.
    pub models: Map<Seq<char>, ResourceEntry>,
    /// The labels of all models.
    pub names: Seq<Seq<char>>,
    /// The temperatures set at run time.
    pub overrides: Map<Seq<char>, Option<Temperature>>,
    /// The memory budget, in megabytes.
    pub budget_mb: u32,
    /// The loaded models and when each was last used.
    pub loaded: Map<Seq<char>, Timestamp>,
    /// The loaded models, in the order of their loading.
    pub order: Seq<Seq<char>>,
    /// How many generations run on each busy model.
    pub busy: Map<Seq<char>, usize>,
    /// The busy models.
    pub busy_order: Seq<Seq<char>>,
    /// What is being done right now.
    pub operation: Option<OperationView>,
    /// The placement under way.
    pub placement: Option<PlacementView>,
    /// Whether everything was unloaded under a running task or placement, as it
    /// is when the program ends.
    pub swept: bool,
}

/// How many generations run on a model.
pub open spec fn busy_count(busy: Map<Seq<char>, usize>, model: Seq<char>) -> nat {
    if busy.dom().contains(model) {
        busy[model] as nat
    } else {
        0
    }
}

/// How many generations run on several models together.
pub open spec fn running(busy: Map<Seq<char>, usize>, models: Seq<Seq<char>>) -> nat
    decreases models.len(),
{
    if models.len() == 0 {
        0
    } else {
        running(busy, models.drop_last()) + busy_count(busy, models.last())
    }
}

/// The next step of a placement.
#[verifier::ext_equal]
pub enum StepView {
    Load,
    Evict(Seq<char>),
    GiveUp,
}

impl SchedulerView {
    /// Whether a list names each key of a map once.
    pub open spec fn lists<V>(order: Seq<Seq<char>>, map: Map<Seq<char>, V>) -> bool {
        &&& order.no_duplicates()
        &&& forall|k: Seq<char>|
            #![trigger map.dom().contains(k)]
            #![trigger order.contains(k)]
            map.dom().contains(k) <==> order.contains(k)
    }

    /// How many generations run.
    pub open spec fn generations(self) -> nat {
        running(self.busy, self.busy_order)
    }

    /// The memory that the loaded models take.
    pub open spec fn used_mb(self) -> nat {
        resource_registry::total_vram(self.models, self.order)
    }

    /// Whether a model can be used as it is: it is loaded and not being unloaded.
    pub open spec fn at_hand(self, model: Seq<char>) -> bool {
        &&& self.loaded.dom().contains(model)
        &&& !(self.placement matches Some(p) && p.stage == StageView::Unloading(model))
    }

    /// Whether a loaded model may be evicted: it is not resident, and no
    /// generation runs on it.
    pub open spec fn evictable(self, model: Seq<char>) -> bool {
        !resource_registry::is_resident(self.models, model) && busy_count(self.busy, model) == 0
    }

    /// The one of the first `n` loaded models to evict: of those that may be,
    /// the one that was not used for longest.
    pub open spec fn victim_of(self, n: nat) -> Option<Seq<char>>
        decreases n,
    {
        if n == 0 {
            None
        } else {
            let m = self.order[n - 1];
            match self.victim_of((n - 1) as nat) {
                None => if self.evictable(m) {
                    Some(m)
                } else {
                    None
                },
                Some(v) => if self.evictable(m) && self.loaded[m].before(self.loaded[v]) {
                    Some(m)
                } else {
                    Some(v)
                },
            }
        }
    }

    /// The model to evict.
    pub open spec fn victim(self) -> Option<Seq<char>> {
        self.victim_of(self.order.len())
    }

    /// What is done to place a model of a size: it is loaded where it fits, else
    /// another one is evicted where one may be.
    pub open spec fn step(self, needed_mb: nat) -> StepView {
        if fits(self.used_mb(), needed_mb, self.budget_mb as nat) {
            StepView::Load
        } else {
            match self.victim() {
                Some(v) => StepView::Evict(v),
                None => StepView::GiveUp,
            }
        }
    }

    /// Whether nothing can be done for a candidate: it is unknown, or it is not
    /// loaded and there is no room to be made for it.
    pub open spec fn hopeless(self, model: Seq<char>) -> bool {
        !self.models.dom().contains(model) || (!self.loaded.dom().contains(model) && self.step(
            self.models[model].vram_mb as nat,
        ) is GiveUp)
    }

    /// The first candidate from a position on that is not hopeless; the number
    /// of candidates where there is none.
    pub open spec fn viable(self, candidates: Seq<Seq<char>>, from: int) -> int
        decreases candidates.len() - from,
    {
        if from >= candidates.len() {
            candidates.len() as int
        } else if self.hopeless(candidates[from]) {
            self.viable(candidates, from + 1)
        } else {
            from
        }
    }

    /// Why a candidate was passed over.
    pub open spec fn rejection(self, model: Seq<char>) -> Seq<char> {
        if self.models.dom().contains(model) {
            model + ": не помещается ("@ + text::decimal(self.models[model].vram_mb as nat) + " MB)"@
        } else {
            model + ": нет в Resource Registry"@
        }
    }

    /// Why the candidates from one position up to another were passed over.
    pub open spec fn rejections(self, candidates: Seq<Seq<char>>, from: int, to: int) -> Seq<
        Seq<char>,
    > {
        Seq::new((to - from) as nat, |i: int| self.rejection(candidates[from + i]))
    }

    /// A loaded model was used now.
    pub open spec fn touched(self, model: Seq<char>, now: Timestamp) -> SchedulerView {
        SchedulerView { loaded: self.loaded.insert(model, now), ..self }
    }

    /// A generation begins on a model.
    pub open spec fn begun(self, model: Seq<char>) -> SchedulerView {
        SchedulerView {
            busy: self.busy.insert(model, (busy_count(self.busy, model) + 1) as usize),
            busy_order: if self.busy.dom().contains(model) {
                self.busy_order
            } else {
                self.busy_order.push(model)
            },
            ..self
        }
    }

    /// A model was loaded now.
    pub open spec fn with_loaded(self, model: Seq<char>, now: Timestamp) -> SchedulerView {
        SchedulerView {
            loaded: self.loaded.insert(model, now),
            order: if self.loaded.dom().contains(model) {
                self.order
            } else {
                self.order.push(model)
            },
            ..self
        }
    }

    /// A model was unloaded.
    pub open spec fn without(self, model: Seq<char>) -> SchedulerView {
        SchedulerView {
            loaded: self.loaded.remove(model),
            order: if self.loaded.dom().contains(model) {
                self.order.remove(self.order.index_of(model))
            } else {
                self.order
            },
            ..self
        }
    }

    /// Nothing is being done any more.
    pub open spec fn at_rest(self) -> SchedulerView {
        SchedulerView { operation: None, placement: None, ..self }
    }

    /// A model was found for a subject: it is marked as busy, unless the limit
    /// has been reached in the meantime.
    pub open spec fn granted(self, subject: SubjectView, model: Seq<char>) -> (
        SchedulerView,
        EffectView,
    ) {
        if self.generations() >= MAX_CONCURRENT_TASKS {
            (self, EffectView::Refused(subject.limit_reached()))
        } else {
            (self.begun(model), EffectView::Ready { model, marks: model })
        }
    }

    /// The search goes on: the first candidate that is not hopeless is taken if
    /// it is loaded; else it is loaded, or room is made for it.
    pub open spec fn searched(self, s: SearchView, now: Timestamp) -> (SchedulerView, EffectView) {
        let k = self.viable(s.candidates, s.position);
        if k >= s.candidates.len() {
            (self, EffectView::Refused(s.subject.no_model()))
        } else {
            let model = s.candidates[k];
            let search = SearchView {
                position: k,
                rejected: s.rejected + self.rejections(s.candidates, s.position, k),
                ..s
            };
            if self.loaded.dom().contains(model) {
                self.touched(model, now).granted(s.subject, model)
            } else {
                match self.step(self.models[model].vram_mb as nat) {
                    StepView::Evict(victim) => (
                        SchedulerView {
                            operation: Some(
                                OperationView {
                                    kind: "выгрузка"@,
                                    model: victim,
                                    reason: s.subject.name(),
                                    started_at: now,
                                },
                            ),
                            placement: Some(
                                PlacementView { search, stage: StageView::Unloading(victim) },
                            ),
                            ..self
                        },
                        EffectView::Unload {
                            model: victim,
                            key: resource_registry::key_of(self.models, victim),
                        },
                    ),
                    _ => (
                        SchedulerView {
                            operation: Some(
                                OperationView {
                                    kind: "загрузка"@,
                                    model,
                                    reason: s.subject.name(),
                                    started_at: now,
                                },
                            ),
                            placement: Some(PlacementView { search, stage: StageView::Loading }),
                            ..self
                        },
                        EffectView::Load { model, key: resource_registry::key_of(self.models, model) },
                    ),
                }
            }
        }
    }

    /// The current candidate is given up: the search goes on behind it.
    pub open spec fn passed_over(self, s: SearchView) -> SearchView {
        SearchView {
            position: s.position + 1,
            rejected: s.rejected.push(self.rejection(s.candidates[s.position])),
            ..s
        }
    }

    /// A load has ended.
    pub open spec fn after_load(self, ok: bool, now: Timestamp) -> (SchedulerView, EffectView) {
        let s = self.placement->0.search;
        let model = s.candidates[s.position];
        if ok {
            self.at_rest().with_loaded(model, now).granted(s.subject, model)
        } else {
            self.at_rest().searched(self.passed_over(s), now)
        }
    }

    /// An unload has ended.
    pub open spec fn after_unload(self, ok: bool, now: Timestamp) -> (SchedulerView, EffectView) {
        let s = self.placement->0.search;
        if ok {
            self.at_rest().without(self.placement->0.stage->Unloading_0).searched(s, now)
        } else {
            self.at_rest().searched(self.passed_over(s), now)
        }
    }

    /// The first candidate of a category that is at hand.
    pub open spec fn first_loaded(self, candidates: Seq<Seq<char>>, from: int) -> Option<Seq<char>>
        decreases candidates.len() - from,
    {
        if from >= candidates.len() {
            None
        } else if self.at_hand(candidates[from]) {
            Some(candidates[from])
        } else {
            self.first_loaded(candidates, from + 1)
        }
    }

    /// The model at hand that can serve a category.
    pub open spec fn standing_by(self, category: Seq<char>, allow_manual: bool) -> Option<Seq<char>> {
        if capability_registry::manual_only(self.categories, category) && !allow_manual {
            None
        } else {
            self.first_loaded(capability_registry::candidates_of(self.categories, category), 0)
        }
    }

    /// What is said when the limit is reached.
    pub open spec fn too_many(self) -> Seq<char> {
        "система уже обслуживает "@ + text::decimal(self.generations())
            + " задач(и) — предел 2, повторите позже"@
    }

    /// A model is asked for a task of a category.
    pub open spec fn asked(self, category: Seq<char>, allow_manual: bool, now: Timestamp) -> (
        SchedulerView,
        EffectView,
    ) {
        let candidates = capability_registry::candidates_of(self.categories, category);
        if self.generations() >= MAX_CONCURRENT_TASKS {
            (self, EffectView::Refused(self.too_many()))
        } else if self.generations() > 0 {
            match self.standing_by(category, allow_manual) {
                Some(model) => self.touched(model, now).granted(
                    SubjectView::Category(category),
                    model,
                ),
                None => (
                    self,
                    EffectView::Refused(
                        "система занята другой задачей, а подходящая для '"@ + category
                            + "' модель не загружена — повторите позже"@,
                    ),
                ),
            }
        } else if self.placement is Some {
            (self, EffectView::Refused("GPU сейчас занят другой задачей, повторите позже"@))
        } else if candidates.len() == 0 {
            (
                self,
                EffectView::Refused(
                    "категория '"@ + category + "' не найдена в Capability Registry"@,
                ),
            )
        } else if capability_registry::manual_only(self.categories, category) && !allow_manual {
            (
                self,
                EffectView::Refused(
                    "категория '"@ + category
                        + "' требует явного запроса пользователя (manual_only)"@,
                ),
            )
        } else {
            self.searched(
                SearchView {
                    subject: SubjectView::Category(category),
                    candidates,
                    position: 0,
                    rejected: Seq::empty(),
                },
                now,
            )
        }
    }

    /// A named model is asked for a service call.
    pub open spec fn asked_by_name(self, label: Seq<char>, now: Timestamp) -> (
        SchedulerView,
        EffectView,
    ) {
        if !self.models.dom().contains(label) {
            (
                self,
                EffectView::Refused(
                    "модель '"@ + label + "' отсутствует в Resource Registry"@,
                ),
            )
        } else if self.generations() >= MAX_CONCURRENT_TASKS {
            (self, EffectView::Refused(self.too_many()))
        } else if self.at_hand(label) {
            self.touched(label, now).granted(SubjectView::Model(label), label)
        } else if self.generations() > 0 {
            (
                self,
                EffectView::Refused(
                    "система занята другой задачей, а модель '"@ + label
                        + "' не загружена — повторите позже"@,
                ),
            )
        } else if self.placement is Some {
            (self, EffectView::Refused("GPU сейчас занят другой задачей, повторите позже"@))
        } else {
            self.searched(
                SearchView {
                    subject: SubjectView::Model(label),
                    candidates: seq![label],
                    position: 0,
                    rejected: Seq::empty(),
                },
                now,
            )
        }
    }

    /// A generation has ended on a model.
    pub open spec fn ended(self, model: Seq<char>) -> SchedulerView {
        if busy_count(self.busy, model) > 1 {
            SchedulerView {
                busy: self.busy.insert(model, (busy_count(self.busy, model) - 1) as usize),
                ..self
            }
        } else {
            SchedulerView {
                busy: self.busy.remove(model),
                busy_order: if self.busy.dom().contains(model) {
                    self.busy_order.remove(self.busy_order.index_of(model))
                } else {
                    self.busy_order
                },
                ..self
            }
        }
    }

    /// What holds of the state at all times: the tables list what they hold, no
    /// more than the permitted number of generations run, each busy model has
    /// one at least, and a model that is being loaded has its room. As long as not
    /// everything was unloaded at once, a busy model is loaded, and one that is
    /// being unloaded is loaded and not busy.
    pub open spec fn wf(self) -> bool {
        &&& Self::lists(self.order, self.loaded)
        &&& Self::lists(self.busy_order, self.busy)
        &&& Self::lists(self.names, self.models)
        &&& resource_registry::total_vram(self.models, self.names) <= u32::MAX
        &&& self.generations() <= MAX_CONCURRENT_TASKS
        &&& forall|k: Seq<char>| self.busy.dom().contains(k) ==> #[trigger] self.busy[k] >= 1
        &&& !self.swept ==> forall|m: Seq<char>| #[trigger]
            busy_count(self.busy, m) > 0 ==> self.loaded.dom().contains(m)
        &&& self.placement matches Some(p) ==> {
            let s = p.search;
            &&& 0 <= s.position < s.candidates.len()
            &&& self.models.dom().contains(s.candidates[s.position])
            &&& p.stage is Loading ==> {
                &&& !self.loaded.dom().contains(s.candidates[s.position])
                &&& fits(
                    self.used_mb(),
                    self.models[s.candidates[s.position]].vram_mb as nat,
                    self.budget_mb as nat,
                )
            }
            &&& !self.swept ==> (p.stage matches StageView::Unloading(v) ==> {
                &&& self.loaded.dom().contains(v)
                &&& busy_count(self.busy, v) == 0
            })
        }
    }
}

/// A model outside the list does not count.
proof fn lemma_running_other(
    busy: Map<Seq<char>, usize>,
    changed: Map<Seq<char>, usize>,
    models: Seq<Seq<char>>,
)
    requires
        forall|i: int|
            0 <= i < models.len() ==> busy_count(busy, #[trigger] models[i]) == busy_count(
                changed,
                models[i],
            ),
    ensures
        running(busy, models) == running(changed, models),
    decreases models.len(),
{
    if models.len() > 0 {
        let rest = models.drop_last();
        assert forall|i: int| 0 <= i < rest.len() implies busy_count(busy, #[trigger] rest[i])
            == busy_count(changed, rest[i]) by {
            assert(rest[i] == models[i]);
        }
        lemma_running_other(busy, changed, rest);
        assert(busy_count(busy, models[models.len() - 1]) == busy_count(
            changed,
            models[models.len() - 1],
        ));
    }
}

/// Taking one model out takes its generations out of the sum.
proof fn lemma_running_remove(busy: Map<Seq<char>, usize>, models: Seq<Seq<char>>, i: int)
    requires
        0 <= i < models.len(),
    ensures
        running(busy, models) == running(busy, models.remove(i)) + busy_count(busy, models[i]),
    decreases models.len(),
{
    if i == models.len() - 1 {
        assert(models.remove(i) =~= models.drop_last());
    } else {
        lemma_running_remove(busy, models.drop_last(), i);
        assert(models.remove(i).drop_last() =~= models.drop_last().remove(i));
        assert(models.remove(i).last() == models.last());
    }
}

/// A busy model's generations are part of the sum.
proof fn lemma_busy_within_running(busy: Map<Seq<char>, usize>, models: Seq<Seq<char>>, m: Seq<char>)
    requires
        models.contains(m),
    ensures
        busy_count(busy, m) <= running(busy, models),
{
    lemma_running_remove(busy, models, models.index_of(m));
}

/// A list of keys stays one when a key is added at its end.
proof fn lemma_lists_insert<V>(order: Seq<Seq<char>>, map: Map<Seq<char>, V>, k: Seq<char>, v: V)
    requires
        SchedulerView::lists(order, map),
    ensures
        map.dom().contains(k) ==> SchedulerView::lists(order, map.insert(k, v)),
        !map.dom().contains(k) ==> SchedulerView::lists(order.push(k), map.insert(k, v)),
{
    if !map.dom().contains(k) {
        let o = order.push(k);
        assert forall|x: Seq<char>| map.insert(k, v).dom().contains(x) <==> o.contains(x) by {
            if order.contains(x) {
                assert(o[order.index_of(x)] == x);
            }
            assert(o[order.len() as int] == k);
        }
    }
}

/// A list of keys stays one when a key is taken out.
proof fn lemma_lists_remove<V>(order: Seq<Seq<char>>, map: Map<Seq<char>, V>, k: Seq<char>)
    requires
        SchedulerView::lists(order, map),
    ensures
        !map.dom().contains(k) ==> map.remove(k) == map,
        map.dom().contains(k) ==> SchedulerView::lists(
            order.remove(order.index_of(k)),
            map.remove(k),
        ),
{
    if map.dom().contains(k) {
        let i = order.index_of(k);
        keyed::lemma_remove(order, order, i);
        let o = order.remove(i);
        assert forall|x: Seq<char>| map.remove(k).dom().contains(x) <==> o.contains(x) by {
            if order.contains(x) && x != k {
                let j = order.index_of(x);
                let j2: int = if j < i { j } else { j - 1 };
                assert(o[j2] == x);
            }
            if o.contains(x) {
                let j = o.index_of(x);
                let j2: int = if j < i { j } else { j + 1 };
                assert(order[j2] == x);
            }
        }
    } else {
        assert(map.remove(k) =~= map);
    }
}

/// A key stands at one position of the list.
proof fn lemma_position_is(order: Seq<Seq<char>>, k: Seq<char>, i: int)
    requires
        order.no_duplicates(),
        0 <= i < order.len(),
        order[i] == k,
    ensures
        order.index_of(k) == i,
{
    assert(order.contains(k));
}

/// One more generation runs when one has begun, and on a model at hand it may
/// begin.
pub proof fn law_begun_counts_one_more(s: SchedulerView, model: Seq<char>)
    requires
        s.wf(),
        s.generations() < MAX_CONCURRENT_TASKS,
    ensures
        s.begun(model).generations() == s.generations() + 1,
        busy_count(s.begun(model).busy, model) == busy_count(s.busy, model) + 1,
        s.at_hand(model) ==> s.begun(model).wf(),
{
    let t = s.begun(model);
    let n = busy_count(s.busy, model);
    lemma_lists_insert(s.busy_order, s.busy, model, (n + 1) as usize);
    if s.busy.dom().contains(model) {
        lemma_busy_within_running(s.busy, s.busy_order, model);
        let i = s.busy_order.index_of(model);
        lemma_running_remove(s.busy, s.busy_order, i);
        lemma_running_remove(t.busy, s.busy_order, i);
        let rest = s.busy_order.remove(i);
        keyed::lemma_remove(s.busy_order, s.busy_order, i);
        assert forall|j: int| 0 <= j < rest.len() implies busy_count(s.busy, #[trigger] rest[j])
            == busy_count(t.busy, rest[j]) by {
            assert(rest.contains(rest[j]));
        }
        lemma_running_other(s.busy, t.busy, rest);
    } else {
        assert(t.busy_order.drop_last() =~= s.busy_order);
        assert forall|j: int|
            0 <= j < s.busy_order.len() implies busy_count(s.busy, #[trigger] s.busy_order[j])
            == busy_count(t.busy, s.busy_order[j]) by {
            assert(s.busy_order.contains(s.busy_order[j]));
        }
        lemma_running_other(s.busy, t.busy, s.busy_order);
    }
}

/// One generation fewer runs when one has ended on a busy model; on another
/// model nothing changes.
pub proof fn law_ended_counts_one_less(s: SchedulerView, model: Seq<char>)
    requires
        s.wf(),
    ensures
        s.busy.dom().contains(model) ==> s.ended(model).generations() == s.generations() - 1,
        !s.busy.dom().contains(model) ==> s.ended(model) == s,
        s.ended(model).wf(),
{
    let t = s.ended(model);
    let n = busy_count(s.busy, model);
    if s.busy.dom().contains(model) {
        let i = s.busy_order.index_of(model);
        lemma_running_remove(s.busy, s.busy_order, i);
        let rest = s.busy_order.remove(i);
        keyed::lemma_remove(s.busy_order, s.busy_order, i);
        assert forall|j: int| 0 <= j < rest.len() implies busy_count(s.busy, #[trigger] rest[j])
            == busy_count(t.busy, rest[j]) by {
            assert(rest.contains(rest[j]));
        }
        lemma_running_other(s.busy, t.busy, rest);
        if n > 1 {
            lemma_lists_insert(s.busy_order, s.busy, model, (n - 1) as usize);
            lemma_running_remove(t.busy, s.busy_order, i);
        } else {
            lemma_lists_remove(s.busy_order, s.busy, model);
        }
    } else {
        lemma_lists_remove(s.busy_order, s.busy, model);
        assert(t =~= s);
    }
}

/// Ending a generation undoes its beginning: the same models are busy, with the
/// same numbers of generations.
pub proof fn law_ended_undoes_begun(s: SchedulerView, model: Seq<char>)
    requires
        s.wf(),
        s.generations() < MAX_CONCURRENT_TASKS,
    ensures
        s.begun(model).ended(model) == s,
{
    law_begun_counts_one_more(s, model);
    let t = s.begun(model);
    if s.busy.dom().contains(model) {
        assert(s.busy[model] >= 1);
        assert(t.ended(model).busy =~= s.busy);
    } else {
        lemma_position_is(t.busy_order, model, s.busy_order.len() as int);
        assert(t.ended(model).busy_order =~= s.busy_order);
        assert(t.ended(model).busy =~= s.busy);
    }
    assert(t.ended(model) =~= s);
}

/// The evicted model is loaded, is not resident, has no generation running on
/// it, and none that may be evicted was last used before it; there is none
/// exactly if no loaded model may be evicted.
pub proof fn law_victim(s: SchedulerView)
    requires
        s.wf(),
    ensures
        s.victim() matches Some(v) ==> s.loaded.dom().contains(v) && s.evictable(v) && forall|
            m: Seq<char>,
        |
            s.loaded.dom().contains(m) && #[trigger] s.evictable(m) ==> !s.loaded[m].before(
                s.loaded[v],
            ),
        s.victim() is None ==> forall|m: Seq<char>|
            s.loaded.dom().contains(m) ==> !#[trigger] s.evictable(m),
{
    lemma_victim_of(s, s.order.len());
    assert forall|m: Seq<char>| s.loaded.dom().contains(m) implies exists|i: int|
        0 <= i < s.order.len() && #[trigger] s.order[i] == m by {
        assert(s.order.contains(m));
    }
}

proof fn lemma_victim_of(s: SchedulerView, n: nat)
    requires
        s.wf(),
        n <= s.order.len(),
    ensures
        s.victim_of(n) matches Some(v) ==> s.loaded.dom().contains(v) && s.evictable(v) && forall|
            i: int,
        |
            0 <= i < n && s.evictable(#[trigger] s.order[i]) ==> !s.loaded[s.order[i]].before(
                s.loaded[v],
            ),
        s.victim_of(n) is None ==> forall|i: int|
            0 <= i < n ==> !s.evictable(#[trigger] s.order[i]),
    decreases n,
{
    if n > 0 {
        lemma_victim_of(s, (n - 1) as nat);
        assert(s.order.contains(s.order[n - 1]));
    }
}

/// The loaded models, with one more that is known and not loaded, take no more
/// than all models together.
proof fn lemma_room(s: SchedulerView, model: Seq<char>)
    requires
        s.wf(),
    ensures
        s.used_mb() <= u32::MAX,
        s.models.dom().contains(model) && !s.loaded.dom().contains(model) ==> s.used_mb()
            + s.models[model].vram_mb <= u32::MAX,
{
    resource_registry::lemma_total_subset(s.models, s.order, s.names);
    if s.models.dom().contains(model) && !s.loaded.dom().contains(model) {
        let more = s.order.push(model);
        assert(more.drop_last() =~= s.order);
        resource_registry::lemma_total_subset(s.models, more, s.names);
    }
}

proof fn lemma_viable(s: SchedulerView, candidates: Seq<Seq<char>>, from: int)
    requires
        0 <= from <= candidates.len(),
    ensures
        from <= s.viable(candidates, from) <= candidates.len(),
        s.viable(candidates, from) < candidates.len() ==> !s.hopeless(
            candidates[s.viable(candidates, from)],
        ),
        forall|i: int|
            from <= i < s.viable(candidates, from) ==> s.hopeless(#[trigger] candidates[i]),
    decreases candidates.len() - from,
{
    if from < candidates.len() && s.hopeless(candidates[from]) {
        lemma_viable(s, candidates, from + 1);
    }
}

/// A model that was just loaded within its room keeps the loaded models within
/// the budget, and an evicted one leaves its memory to others.
pub proof fn law_memory(s: SchedulerView, model: Seq<char>, now: Timestamp)
    requires
        s.wf(),
    ensures
        s.models.dom().contains(model) && !s.loaded.dom().contains(model) ==> s.with_loaded(
            model,
            now,
        ).used_mb() == s.used_mb() + s.models[model].vram_mb,
        s.loaded.dom().contains(model) ==> s.without(model).used_mb()
            + resource_registry::vram_of(s.models, model) == s.used_mb(),
        s.touched(model, now).used_mb() == s.used_mb(),
        s.begun(model).used_mb() == s.used_mb(),
        s.ended(model).used_mb() == s.used_mb(),
{
    if s.models.dom().contains(model) && !s.loaded.dom().contains(model) {
        assert(s.order.push(model).drop_last() =~= s.order);
    }
    if s.loaded.dom().contains(model) {
        resource_registry::lemma_total_remove(s.models, s.order, s.order.index_of(model));
    }
}

/// The next step of a placement.
enum Step {
    Load,
    Evict(ModelId),
    GiveUp,
}

/// The scheduler: which models are loaded, which are busy, and what is being
/// done about it.
pub struct Scheduler {
    capability_registry: CapabilityRegistry,
    resource_registry: ResourceRegistry,
    total_model_memory_mb: u32,
    loaded: Keyed<Timestamp>,
    busy: Keyed<usize>,
    current_operation: Option<ActiveOperation>,
    placement: Option<Placement>,
    swept: Ghost<bool>,
}

impl View for Scheduler {
    type V = SchedulerView;

    closed spec fn view(&self) -> SchedulerView {
        SchedulerView {
            categories: self.capability_registry@,
            models: self.resource_registry@,
            names: self.resource_registry.names(),
            overrides: self.resource_registry.overrides(),
            budget_mb: self.total_model_memory_mb,
            loaded: self.loaded@,
            order: self.loaded.keys(),
            busy: self.busy@,
            busy_order: self.busy.keys(),
            operation: match self.current_operation {
                Some(o) => Some(o@),
                None => None,
            },
            placement: match self.placement {
                Some(p) => Some(p@),
                None => None,
            },
            swept: self.swept@,
        }
    }
}

impl Scheduler {
    /// A scheduler with nothing loaded.
    pub fn new(
        capability_registry: CapabilityRegistry,
        resource_registry: ResourceRegistry,
        total_model_memory_mb: u32,
    ) -> (r: Self)
        requires
            resource_registry.sizes_fit(),
        ensures
            r@ == (SchedulerView {
                categories: capability_registry@,
                models: resource_registry@,
                names: resource_registry.names(),
                overrides: resource_registry.overrides(),
                budget_mb: total_model_memory_mb,
                loaded: Map::empty(),
                order: Seq::empty(),
                busy: Map::empty(),
                busy_order: Seq::empty(),
                operation: None,
                placement: None,
                swept: false,
            }),
            r@.wf(),
    {
        Scheduler {
            capability_registry,
            resource_registry,
            total_model_memory_mb,
            loaded: Keyed::new(),
            busy: Keyed::new(),
            current_operation: None,
            placement: None,
            swept: Ghost(false),
        }
    }

    /// What is being done right now.
    pub fn active_operation(&self) -> (r: Option<&ActiveOperation>)
        ensures
            match r {
                Some(o) => self@.operation == Some(o@),
                None => self@.operation is None,
            },
    {
        match &self.current_operation {
            Some(o) => Some(o),
            None => None,
        }
    }

    /// The models and what they cost.
    pub fn resources(&self) -> (r: &ResourceRegistry)
        ensures
            r@ == self@.models,
            r.names() == self@.names,
            r.overrides() == self@.overrides,
    {
        &self.resource_registry
    }

    /// Makes a stored temperature the one in force.
    pub fn remember_temperature(&mut self, model: &str, value: Option<Temperature>)
        ensures
            final(self)@ == (SchedulerView {
                overrides: old(self)@.overrides.insert(model@, value),
                ..old(self)@
            }),
    {
        self.resource_registry.remember_temperature(model, value);
    }

    /// The memory budget.
    pub fn total_model_memory_mb(&self) -> (r: u32)
        ensures
            r == self@.budget_mb,
    {
        self.total_model_memory_mb
    }

    /// How many generations run right now.
    pub fn running_generations(&self) -> (r: usize)
        requires
            self@.wf(),
        ensures
            r == self@.generations(),
    {
        let n: usize = self.busy.len();
        let ghost order = self@.busy_order;
        let mut sum: usize = 0;
        let mut i: usize = 0;
        assert(order.take(0) =~= Seq::<Seq<char>>::empty());
        while i < n
            invariant
                i <= n,
                n == order.len(),
                order == self.busy.keys(),
                running(self.busy@, order) <= MAX_CONCURRENT_TASKS,
                sum == running(self.busy@, order.take(i as int)),
            decreases n - i,
        {
            assert(order.take(i + 1).drop_last() =~= order.take(i as int));
            assert(order.take(i + 1).last() == order[i as int]);
            proof {
                lemma_running_prefix(self.busy@, order, i + 1);
            }
            sum = sum + *self.busy.value_at(i);
            i = i + 1;
        }
        assert(order.take(n as int) =~= order);
        sum
    }

    /// The busy models in the order of their names, with the number of
    /// generations on each.
    pub fn busy_models(&self) -> (r: Vec<(ModelId, usize)>)
        requires
            self@.wf(),
        ensures
            text::sorted(r@.map_values(|e: (ModelId, usize)| e.0@)),
            forall|i: int|
                0 <= i < r@.len() ==> self@.busy.dom().contains((#[trigger] r@[i]).0@)
                    && self@.busy[r@[i].0@] == r@[i].1,
            forall|m: Seq<char>|
                self@.busy.dom().contains(m) ==> exists|i: int|
                    0 <= i < r@.len() && (#[trigger] r@[i]).0@ == m,
    {
        let n: usize = self.busy.len();
        let ghost order = self@.busy_order;
        let mut names: Vec<String> = Vec::new();
        let mut i: usize = 0;
        assert(text::texts(names@) =~= order.take(0));
        while i < n
            invariant
                i <= n,
                n == order.len(),
                order == self.busy.keys(),
                text::texts(names@) == order.take(i as int),
            decreases n - i,
        {
            names.push(self.busy.key_at(i).clone());
            assert(order.take(i + 1) =~= order.take(i as int).push(order[i as int]));
            i = i + 1;
        }
        assert(order.take(n as int) =~= order);
        let sorted = text::sort(names);
        let ghost st = text::texts(sorted@);
        let mut out: Vec<(ModelId, usize)> = Vec::new();
        let mut j: usize = 0;
        while j < sorted.len()
            invariant
                j <= sorted@.len(),
                st == text::texts(sorted@),
                forall|t: Seq<char>| st.contains(t) <==> order.contains(t),
                order == self.busy.keys(),
                out@.len() == j,
                forall|k: int|
                    0 <= k < j ==> (#[trigger] out@[k]).0@ == st[k] && self.busy@.dom().contains(
                        st[k],
                    ) && self.busy@[st[k]] == out@[k].1,
            decreases sorted@.len() - j,
        {
            assert(st[j as int] == sorted@[j as int]@);
            assert(st.contains(st[j as int]));
            assert(order.contains(st[j as int]));
            match self.busy.get(sorted[j].as_str()) {
                Some(count) => {
                    out.push((sorted[j].clone(), *count));
                },
                None => {
                    assert(false);
                },
            }
            j = j + 1;
        }
        assert(out@.map_values(|e: (ModelId, usize)| e.0@) =~= st);
        assert forall|m: Seq<char>| self@.busy.dom().contains(m) implies exists|i: int|
            0 <= i < out@.len() && (#[trigger] out@[i]).0@ == m by {
            assert(order.contains(m));
            assert(st.contains(m));
            let k = st.index_of(m);
            assert(out@[k].0@ == m);
        }
        out
    }

    /// The loaded models, with the time when each was last used.
    pub fn snapshot(&self) -> (r: Vec<(ModelId, Timestamp)>)
        ensures
            r@.map_values(|e: (ModelId, Timestamp)| e.0@) == self@.order,
            forall|i: int|
                0 <= i < r@.len() ==> self@.loaded.dom().contains((#[trigger] r@[i]).0@)
                    && self@.loaded[r@[i].0@] == r@[i].1,
    {
        let n: usize = self.loaded.len();
        let mut out: Vec<(ModelId, Timestamp)> = Vec::new();
        let mut i: usize = 0;
        while i < n
            invariant
                i <= n,
                n == self.loaded.keys().len(),
                out@.len() == i,
                forall|k: int|
                    0 <= k < i ==> (#[trigger] out@[k]).0@ == self.loaded.keys()[k]
                        && self.loaded@.dom().contains(out@[k].0@) && self.loaded@[out@[k].0@]
                        == out@[k].1,
            decreases n - i,
        {
            let used: Timestamp = *self.loaded.value_at(i);
            out.push((self.loaded.key_at(i).clone(), used));
            i = i + 1;
        }
        assert(out@.map_values(|e: (ModelId, Timestamp)| e.0@) =~= self@.order);
        out
    }

    /// When a model was last used, if it is loaded.
    pub fn last_used(&self, model: &str) -> (r: Option<Timestamp>)
        ensures
            r is Some <==> self@.loaded.dom().contains(model@),
            r matches Some(t) ==> t == self@.loaded[model@],
    {
        match self.loaded.get(model) {
            Some(t) => Some(*t),
            None => None,
        }
    }

    /// The memory that the loaded models take.
    pub fn used_model_memory_mb(&self) -> (r: u32)
        requires
            self@.wf(),
        ensures
            r == self@.used_mb(),
    {
        let n: usize = self.loaded.len();
        let ghost order = self@.order;
        let ghost models = self@.models;
        let mut sum: u32 = 0;
        let mut i: usize = 0;
        assert(order.take(0) =~= Seq::<Seq<char>>::empty());
        proof {
            lemma_room(self@, Seq::empty());
        }
        while i < n
            invariant
                i <= n,
                n == order.len(),
                order == self.loaded.keys(),
                models == self.resource_registry@,
                resource_registry::total_vram(models, order) <= u32::MAX,
                sum == resource_registry::total_vram(models, order.take(i as int)),
            decreases n - i,
        {
            assert(order.take(i + 1).drop_last() =~= order.take(i as int));
            assert(order.take(i + 1).last() == order[i as int]);
            proof {
                resource_registry::lemma_total_prefix(models, order, i + 1);
            }
            match self.resource_registry.get(self.loaded.key_at(i).as_str()) {
                Some(entry) => {
                    sum = sum + entry.vram_mb;
                },
                None => {},
            }
            i = i + 1;
        }
        assert(order.take(n as int) =~= order);
        sum
    }

    /// Whether a loaded model may be evicted.
    fn may_evict(&self, model: &str) -> (r: bool)
        ensures
            r == self@.evictable(model@),
    {
        let resident: bool = match self.resource_registry.get(model) {
            Some(entry) => entry.always_loaded,
            None => false,
        };
        let count: usize = match self.busy.get(model) {
            Some(count) => *count,
            None => 0,
        };
        !resident && count == 0
    }

    /// The model to evict: loaded, neither resident nor busy, and not used for
    /// longest.
    pub fn pick_eviction_victim(&self) -> (r: Option<ModelId>)
        requires
            self@.wf(),
        ensures
            text::opt_text(r) == self@.victim(),
    {
        let n: usize = self.loaded.len();
        let mut best: Option<(ModelId, Timestamp)> = None;
        let mut i: usize = 0;
        while i < n
            invariant
                self@.wf(),
                i <= n,
                n == self@.order.len(),
                self@.order == self.loaded.keys(),
                self@.loaded == self.loaded@,
                match best {
                    Some(b) => self@.victim_of(i as nat) == Some(b.0@) && b.1
                        == self@.loaded[b.0@],
                    None => self@.victim_of(i as nat) is None,
                },
            decreases n - i,
        {
            let name = self.loaded.key_at(i);
            let at: Timestamp = *self.loaded.value_at(i);
            if self.may_evict(name.as_str()) {
                let better: bool = match &best {
                    Some(b) => at.is_before(b.1),
                    None => true,
                };
                if better {
                    best = Some((name.clone(), at));
                }
            }
            i = i + 1;
        }
        match best {
            Some(b) => Some(b.0),
            None => None,
        }
    }

    /// What is done to place a model of a size.
    fn plan(&self, needed_mb: u32) -> (r: Step)
        requires
            self@.wf(),
            self@.used_mb() + needed_mb <= u32::MAX,
        ensures
            match self@.step(needed_mb as nat) {
                StepView::Load => r is Load,
                StepView::Evict(v) => r matches Step::Evict(m) && m@ == v,
                StepView::GiveUp => r is GiveUp,
            },
    {
        let used: u32 = self.used_model_memory_mb();
        if fits_in_budget(used, needed_mb, self.total_model_memory_mb) {
            Step::Load
        } else {
            match self.pick_eviction_victim() {
                Some(v) => Step::Evict(v),
                None => Step::GiveUp,
            }
        }
    }

    /// Why a candidate was passed over.
    fn rejection(&self, model: &str) -> (r: String)
        ensures
            r@ == self@.rejection(model@),
    {
        let mut s = model.to_owned();
        match self.resource_registry.get(model) {
            Some(entry) => {
                s.append(": не помещается (");
                let mb = text::show(entry.vram_mb as u64);
                s.append(mb.as_str());
                s.append(" MB)");
            },
            None => {
                s.append(": нет в Resource Registry");
            },
        }
        s
    }

    /// Marks a model as used now.
    fn touch(&mut self, model: &str, now: Timestamp)
        requires
            old(self)@.wf(),
            old(self)@.loaded.dom().contains(model@),
        ensures
            final(self)@ == old(self)@.touched(model@, now),
            final(self)@.wf(),
    {
        self.loaded.insert(model.to_owned(), now);
        proof {
            lemma_lists_insert(old(self)@.order, old(self)@.loaded, model@, now);
        }
    }

    /// Marks the beginning of a generation on a model at hand, unless the limit
    /// is reached.
    fn try_begin_generation(&mut self, model: &str) -> (r: Option<GenerationGuard>)
        requires
            old(self)@.wf(),
            old(self)@.at_hand(model@),
        ensures
            r is Some <==> old(self)@.generations() < MAX_CONCURRENT_TASKS,
            match r {
                Some(g) => g.of() == model@ && final(self)@ == old(self)@.begun(model@),
                None => final(self)@ == old(self)@,
            },
            final(self)@.wf(),
    {
        let running: usize = self.running_generations();
        if running >= MAX_CONCURRENT_TASKS {
            return None;
        }
        let count: usize = match self.busy.get(model) {
            Some(count) => *count,
            None => 0,
        };
        proof {
            law_begun_counts_one_more(self@, model@);
            if self@.busy.dom().contains(model@) {
                lemma_busy_within_running(self@.busy, self@.busy_order, model@);
            }
        }
        self.busy.insert(model.to_owned(), count + 1);
        Some(GenerationGuard { model: model.to_owned() })
    }

    /// Hands a model at hand to its subject.
    fn grant(&mut self, subject: &Subject, model: &str) -> (r: Effect)
        requires
            old(self)@.wf(),
            old(self)@.at_hand(model@),
        ensures
            (final(self)@, r@) == old(self)@.granted(subject@, model@),
            final(self)@.wf(),
    {
        match self.try_begin_generation(model) {
            Some(guard) => Effect::Ready(Session { model_id: model.to_owned(), guard }),
            None => Effect::Refused(subject.limit_reached()),
        }
    }

    /// Looks for the first candidate that can be had, and says what is to be
    /// done for it.
    fn search(&mut self, s: Search, now: Timestamp) -> (r: Effect)
        requires
            old(self)@.wf(),
            old(self)@.placement is None,
            0 <= s@.position <= s@.candidates.len(),
        ensures
            (final(self)@, r@) == old(self)@.searched(s@, now),
            final(self)@.wf(),
    {
        let ghost before = self@;
        let ghost asked = s@;
        let subject = s.subject;
        let candidates = s.candidates;
        let mut position: usize = s.position;
        let mut rejected = s.rejected;
        let ghost names = asked.candidates;
        assert(asked.rejected + before.rejections(names, asked.position, position as int)
            =~= asked.rejected);
        while position < candidates.len()
            invariant
                self@ == before,
                before == old(self)@,
                asked == s@,
                before.wf(),
                before.placement is None,
                names == text::texts(candidates@),
                asked.candidates == names,
                asked.subject == subject@,
                0 <= asked.position <= position <= candidates@.len(),
                before.viable(names, asked.position) == before.viable(names, position as int),
                text::texts(rejected@) == asked.rejected + before.rejections(
                    names,
                    asked.position,
                    position as int,
                ),
            decreases candidates@.len() - position,
        {
            let candidate = candidates[position].as_str();
            assert(names[position as int] == candidate@);
            let known: Option<u32> = match self.resource_registry.get(candidate) {
                Some(entry) => Some(entry.vram_mb),
                None => None,
            };
            match known {
                Some(vram_mb) => {
                    if self.loaded.contains(candidate) {
                        self.touch(candidate, now);
                        return self.grant(&subject, candidate);
                    }
                    proof {
                        lemma_room(before, candidate@);
                    }
                    match self.plan(vram_mb) {
                        Step::Load => {
                            let key = self.resource_registry.provider_key(candidate);
                            let model = candidates[position].clone();
                            self.current_operation = Some(
                                ActiveOperation {
                                    kind: LOADING,
                                    model: candidates[position].clone(),
                                    reason: subject.name().to_owned(),
                                    started_at: now,
                                },
                            );
                            self.placement = Some(
                                Placement {
                                    search: Search { subject, candidates, position, rejected },
                                    stage: Stage::Loading,
                                },
                            );
                            return Effect::Load { model, key };
                        },
                        Step::Evict(victim) => {
                            proof {
                                law_victim(before);
                            }
                            let key = self.resource_registry.provider_key(victim.as_str());
                            self.current_operation = Some(
                                ActiveOperation {
                                    kind: UNLOADING,
                                    model: victim.clone(),
                                    reason: subject.name().to_owned(),
                                    started_at: now,
                                },
                            );
                            self.placement = Some(
                                Placement {
                                    search: Search { subject, candidates, position, rejected },
                                    stage: Stage::Unloading(victim.clone()),
                                },
                            );
                            return Effect::Unload { model: victim, key };
                        },
                        Step::GiveUp => {},
                    }
                },
                None => {},
            }
            let why = self.rejection(candidate);
            rejected.push(why);
            proof {
                let a = before.rejections(names, asked.position, position as int);
                let b = before.rejections(names, asked.position, position + 1);
                assert(b =~= a.push(before.rejection(names[position as int])));
                assert((asked.rejected + a).push(before.rejection(names[position as int]))
                    =~= asked.rejected + b);
            }
            position = position + 1;
        }
        Effect::Refused(subject.no_model())
    }

    /// Asks for a model for a task of a category. While another task runs, only
    /// a model that is loaded already can be had. `allow_manual` admits the
    /// categories that are served on request only.
    pub fn begin_session(&mut self, category: &str, allow_manual: bool, now: Timestamp) -> (r: Effect)
        requires
            old(self)@.wf(),
        ensures
            (final(self)@, r@) == old(self)@.asked(category@, allow_manual, now),
            final(self)@.wf(),
    {
        let running: usize = self.running_generations();
        if running >= MAX_CONCURRENT_TASKS {
            return Effect::Refused(Self::too_many(running));
        }
        if running > 0 {
            return match self.already_loaded_candidate(category, allow_manual) {
                Some(model) => {
                    self.touch(model.as_str(), now);
                    self.grant(&Subject::Category(category.to_owned()), model.as_str())
                },
                None => {
                    let mut e = String::from_str(
                        "система занята другой задачей, а подходящая для '",
                    );
                    e.append(category);
                    e.append("' модель не загружена — повторите позже");
                    Effect::Refused(e)
                },
            };
        }
        if self.placement.is_some() {
            return Effect::Refused(
                String::from_str("GPU сейчас занят другой задачей, повторите позже"),
            );
        }
        let candidates = self.capability_registry.candidates(category);
        assert(text::texts(candidates@).len() == candidates@.len());
        if candidates.len() == 0 {
            let mut e = String::from_str("категория '");
            e.append(category);
            e.append("' не найдена в Capability Registry");
            return Effect::Refused(e);
        }
        if self.capability_registry.is_manual_only(category) && !allow_manual {
            let mut e = String::from_str("категория '");
            e.append(category);
            e.append("' требует явного запроса пользователя (manual_only)");
            return Effect::Refused(e);
        }
        let s = Search {
            subject: Subject::Category(category.to_owned()),
            candidates,
            position: 0,
            rejected: Vec::new(),
        };
        assert(s@.rejected =~= Seq::<Seq<char>>::empty());
        self.search(s, now)
    }

    /// Asks for a named model, for a service call that has no category of its
    /// own. The same rules hold as for a task.
    pub fn run_with_model(&mut self, model_label: &str, now: Timestamp) -> (r: Effect)
        requires
            old(self)@.wf(),
        ensures
            (final(self)@, r@) == old(self)@.asked_by_name(model_label@, now),
            final(self)@.wf(),
    {
        if self.resource_registry.get(model_label).is_none() {
            let mut e = String::from_str("модель '");
            e.append(model_label);
            e.append("' отсутствует в Resource Registry");
            return Effect::Refused(e);
        }
        let running: usize = self.running_generations();
        if running >= MAX_CONCURRENT_TASKS {
            return Effect::Refused(Self::too_many(running));
        }
        let subject = Subject::Model(model_label.to_owned());
        if self.is_at_hand(model_label) {
            self.touch(model_label, now);
            return self.grant(&subject, model_label);
        }
        if running > 0 {
            let mut e = String::from_str("система занята другой задачей, а модель '");
            e.append(model_label);
            e.append("' не загружена — повторите позже");
            return Effect::Refused(e);
        }
        if self.placement.is_some() {
            return Effect::Refused(
                String::from_str("GPU сейчас занят другой задачей, повторите позже"),
            );
        }
        let mut candidates: Vec<ModelId> = Vec::new();
        candidates.push(model_label.to_owned());
        let s = Search { subject, candidates, position: 0, rejected: Vec::new() };
        assert(s@.rejected =~= Seq::<Seq<char>>::empty());
        assert(s@.candidates =~= seq![model_label@]);
        self.search(s, now)
    }

    fn too_many(running: usize) -> (r: String)
        ensures
            r@ == "система уже обслуживает "@ + text::decimal(running as nat)
                + " задач(и) — предел 2, повторите позже"@,
    {
        let mut e = String::from_str("система уже обслуживает ");
        let n = text::show(running as u64);
        e.append(n.as_str());
        e.append(" задач(и) — предел 2, повторите позже");
        e
    }

    /// Whether a model can be used as it is.
    fn is_at_hand(&self, model: &str) -> (r: bool)
        ensures
            r == self@.at_hand(model@),
    {
        let leaving: bool = match &self.placement {
            Some(p) => match &p.stage {
                Stage::Unloading(v) => text::same(v.as_str(), model),
                Stage::Loading => false,
            },
            None => false,
        };
        self.loaded.contains(model) && !leaving
    }

    /// The first candidate of a category that is at hand.
    fn already_loaded_candidate(&self, category: &str, allow_manual: bool) -> (r: Option<ModelId>)
        ensures
            text::opt_text(r) == self@.standing_by(category@, allow_manual),
            r matches Some(m) ==> self@.at_hand(m@),
    {
        if self.capability_registry.is_manual_only(category) && !allow_manual {
            return None;
        }
        let candidates = self.capability_registry.candidates(category);
        let ghost names = text::texts(candidates@);
        let mut i: usize = 0;
        while i < candidates.len()
            invariant
                i <= candidates@.len(),
                names == text::texts(candidates@),
                names == capability_registry::candidates_of(self@.categories, category@),
                !(capability_registry::manual_only(self@.categories, category@) && !allow_manual),
                self@.first_loaded(names, 0) == self@.first_loaded(names, i as int),
            decreases candidates@.len() - i,
        {
            assert(names[i as int] == candidates@[i as int]@);
            if self.is_at_hand(candidates[i].as_str()) {
                return Some(candidates[i].clone());
            }
            i = i + 1;
        }
        None
    }

    /// Whether a load is awaited.
    pub fn awaits_load(&self) -> (r: bool)
        ensures
            r == (self@.placement matches Some(p) && p.stage is Loading),
    {
        match &self.placement {
            Some(p) => match &p.stage {
                Stage::Loading => true,
                Stage::Unloading(_) => false,
            },
            None => false,
        }
    }

    /// Whether an unload is awaited.
    pub fn awaits_unload(&self) -> (r: bool)
        ensures
            r == (self@.placement matches Some(p) && p.stage is Unloading),
    {
        match &self.placement {
            Some(p) => match &p.stage {
                Stage::Loading => false,
                Stage::Unloading(_) => true,
            },
            None => false,
        }
    }

    /// The awaited load has ended. A model that was loaded is handed over; where
    /// it was not, the search goes on behind it.
    pub fn load_finished(&mut self, ok: bool, now: Timestamp) -> (r: Effect)
        requires
            old(self)@.wf(),
            old(self)@.placement matches Some(p) && p.stage is Loading,
        ensures
            (final(self)@, r@) == old(self)@.after_load(ok, now),
            final(self)@.wf(),
            ok ==> final(self)@.used_mb() <= final(self)@.budget_mb,
    {
        let ghost before = self@;
        let placement = self.placement.take();
        self.current_operation = None;
        let ghost resting = self@;
        assert(resting =~= before.at_rest());
        let mut search = placement.unwrap().search;
        let ghost names = search@.candidates;
        let ghost at = search@.position;
        assert(names[at] == search.candidates@[at]@);
        let model = search.candidates[search.position].clone();
        if ok {
            proof {
                lemma_lists_insert(resting.order, resting.loaded, model@, now);
                law_memory(resting, model@, now);
            }
            self.loaded.insert(model.clone(), now);
            assert(self@ =~= resting.with_loaded(model@, now));
            proof {
                law_memory(self@, model@, now);
            }
            self.grant(&search.subject, model.as_str())
        } else {
            let why = self.rejection(model.as_str());
            search.rejected.push(why);
            assert(search.position < search.candidates.len());
            search.position = search.position + 1;
            assert(search@ =~= before.passed_over(before.placement->0.search));
            self.search(search, now)
        }
    }

    /// The awaited unload has ended. Where the model was unloaded, the candidate
    /// that needed the room is tried again; where it was not, the search goes on
    /// behind that candidate.
    pub fn unload_finished(&mut self, ok: bool, now: Timestamp) -> (r: Effect)
        requires
            old(self)@.wf(),
            old(self)@.placement matches Some(p) && p.stage is Unloading,
        ensures
            (final(self)@, r@) == old(self)@.after_unload(ok, now),
            final(self)@.wf(),
    {
        let ghost before = self@;
        let placement = self.placement.take();
        self.current_operation = None;
        let ghost resting = self@;
        assert(resting =~= before.at_rest());
        let Placement { search, stage } = placement.unwrap();
        let mut search = search;
        if ok {
            match stage {
                Stage::Unloading(victim) => {
                    proof {
                        lemma_lists_remove(resting.order, resting.loaded, victim@);
                    }
                    self.loaded.remove(victim.as_str());
                    proof {
                        if resting.loaded.dom().contains(victim@) {
                            let i = choose|i: int|
                                0 <= i < resting.order.len() && #[trigger] resting.order[i]
                                    == victim@ && self.loaded.keys() == resting.order.remove(i);
                            lemma_position_is(resting.order, victim@, i);
                        }
                    }
                    assert(self@ =~= resting.without(victim@));
                },
                Stage::Loading => {},
            }
            self.search(search, now)
        } else {
            let ghost names = search@.candidates;
            let ghost at = search@.position;
            assert(names[at] == search.candidates@[at]@);
            let model = search.candidates[search.position].clone();
            let why = self.rejection(model.as_str());
            search.rejected.push(why);
            assert(search.position < search.candidates.len());
            search.position = search.position + 1;
            assert(search@ =~= before.passed_over(before.placement->0.search));
            self.search(search, now)
        }
    }

    /// Gives a placement up whose request is gone: nothing is being done any more.
    pub fn abandon_placement(&mut self)
        requires
            old(self)@.wf(),
        ensures
            final(self)@ == old(self)@.at_rest(),
            final(self)@.wf(),
    {
        self.placement = None;
        self.current_operation = None;
    }

    /// A generation has ended, in whatever way.
    pub fn end_generation(&mut self, guard: GenerationGuard)
        requires
            old(self)@.wf(),
        ensures
            final(self)@ == old(self)@.ended(guard.of()),
            final(self)@.wf(),
    {
        let ghost before = self@;
        proof {
            law_ended_counts_one_less(before, guard.of());
        }
        let count: usize = match self.busy.get(guard.model.as_str()) {
            Some(count) => *count,
            None => 0,
        };
        if count > 1 {
            self.busy.insert(guard.model, count - 1);
        } else {
            self.busy.remove(guard.model.as_str());
            proof {
                if before.busy.dom().contains(guard.model@) {
                    let i = choose|i: int|
                        0 <= i < before.busy_order.len() && #[trigger] before.busy_order[i]
                            == guard.model@ && self.busy.keys() == before.busy_order.remove(i);
                    lemma_position_is(before.busy_order, guard.model@, i);
                }
            }
        }
        assert(self@ =~= before.ended(guard.of()));
    }

    /// Closes a session: its model may be evicted again.
    pub fn close(&mut self, session: Session)
        requires
            old(self)@.wf(),
        ensures
            final(self)@ == old(self)@.ended(session.marks()),
            final(self)@.wf(),
    {
        self.end_generation(session.guard);
    }

    /// A request as it goes to the model that took it: the temperature of the
    /// registry is put in where the request has none of its own.
    pub fn with_registry_temperature(&self, model_label: &str, request: GenerateRequest) -> (r:
        GenerateRequest)
        ensures
            r.messages == request.messages,
            r.tools == request.tools,
            r.temperature == if request.temperature is Some {
                request.temperature
            } else {
                resource_registry::temperature_in_force(
                    self@.models,
                    self@.overrides,
                    model_label@,
                )
            },
    {
        let mut request = request;
        if request.temperature.is_none() {
            request.temperature = self.resource_registry.temperature_for(model_label);
        }
        request
    }

    /// What goes to the provider for one request of a session: the provider's
    /// name of the model, and the request with its temperature.
    pub fn generate_under_guard(&self, model_id: &str, request: GenerateRequest) -> (r: (
        String,
        GenerateRequest,
    ))
        ensures
            r.0@ == resource_registry::key_of(self@.models, model_id@),
            r.1.messages == request.messages,
            r.1.tools == request.tools,
            r.1.temperature == if request.temperature is Some {
                request.temperature
            } else {
                resource_registry::temperature_in_force(self@.models, self@.overrides, model_id@)
            },
    {
        let request = self.with_registry_temperature(model_id, request);
        (self.resource_registry.provider_key(model_id), request)
    }
}

/// A prefix of the busy models has no more generations than all of them.
proof fn lemma_running_prefix(busy: Map<Seq<char>, usize>, models: Seq<Seq<char>>, n: int)
    requires
        0 <= n <= models.len(),
    ensures
        running(busy, models.take(n)) <= running(busy, models),
    decreases models.len() - n,
{
    if n < models.len() {
        lemma_running_prefix(busy, models, n + 1);
        assert(models.take(n + 1).drop_last() =~= models.take(n));
    } else {
        assert(models.take(n) =~= models);
    }
}

// What the machine can do at all, and getting it ready.

/// What can be done with the given budget and registries.
pub struct ReachabilityReport {
    pub budget_mb: u32,
    /// The memory that the residents take at all times.
    pub resident_mb: u32,
    /// The models that can never be placed, with their sizes.
    pub unreachable: Vec<(String, u32)>,
    /// The categories of which no candidate can be placed.
    pub empty_categories: Vec<String>,
    /// The categories that are served by another model than the primary one:
    /// the category, the primary model and the one that serves it.
    pub served_by_fallback: Vec<(String, String, String)>,
}

impl SchedulerView {
    /// The memory that the residents take.
    pub open spec fn resident_mb(self) -> nat {
        resource_registry::resident_vram(self.models, self.names)
    }

    /// Whether a known model can be placed at all: it fits beside the residents,
    /// a resident beside the others.
    pub open spec fn reachable(self, model: Seq<char>) -> bool {
        let size = self.models[model].vram_mb as nat;
        let floor = if self.models[model].always_loaded {
            (self.resident_mb() - size) as nat
        } else {
            self.resident_mb()
        };
        fits(floor, size, self.budget_mb as nat)
    }

    /// The first candidate from a position on that is known and can be placed.
    pub open spec fn winner(self, candidates: Seq<Seq<char>>, from: int) -> Option<Seq<char>>
        decreases candidates.len() - from,
    {
        if from >= candidates.len() {
            None
        } else if self.models.dom().contains(candidates[from]) && self.reachable(candidates[from]) {
            Some(candidates[from])
        } else {
            self.winner(candidates, from + 1)
        }
    }

    /// The model that serves a category.
    pub open spec fn serves(self, category: Seq<char>) -> Option<Seq<char>> {
        self.winner(capability_registry::candidates_of(self.categories, category), 0)
    }

    /// The model that is meant for a category.
    pub open spec fn meant_for(self, category: Seq<char>) -> Seq<char> {
        capability_registry::candidates_of(self.categories, category)[0]
    }

    /// Whether a category is served by another model than the one meant for it.
    pub open spec fn by_fallback(self, category: Seq<char>) -> bool {
        self.categories.dom().contains(category) && self.serves(category) is Some && self.serves(
            category,
        ) != Some(self.meant_for(category))
    }

    /// Whether a generation runs or a placement is under way.
    pub open spec fn in_use(self) -> bool {
        self.generations() > 0 || self.placement is Some
    }

    /// Nothing is loaded any more.
    pub open spec fn emptied(self) -> SchedulerView {
        SchedulerView {
            loaded: Map::empty(),
            order: Seq::empty(),
            swept: self.swept || self.in_use(),
            ..self
        }
    }
}

/// A model that is not resident adds its size to the residents', and the sum is
/// no more than that of all models.
proof fn lemma_resident_plus_other(
    models: Map<Seq<char>, ResourceEntry>,
    names: Seq<Seq<char>>,
    i: int,
)
    requires
        0 <= i < names.len(),
        !resource_registry::is_resident(models, names[i]),
    ensures
        resource_registry::resident_vram(models, names) + resource_registry::vram_of(
            models,
            names[i],
        ) <= resource_registry::total_vram(models, names),
    decreases names.len(),
{
    if i == names.len() - 1 {
        resource_registry::lemma_residents_part_of_all(models, names.drop_last());
    } else {
        lemma_resident_plus_other(models, names.drop_last(), i);
    }
}

/// The residents alone take what the residents take.
pub proof fn law_residents_take_their_memory(
    models: Map<Seq<char>, ResourceEntry>,
    names: Seq<Seq<char>>,
)
    ensures
        resource_registry::total_vram(models, resource_registry::residents(models, names))
            == resource_registry::resident_vram(models, names),
    decreases names.len(),
{
    if names.len() > 0 {
        law_residents_take_their_memory(models, names.drop_last());
        let r = resource_registry::residents(models, names.drop_last());
        if resource_registry::is_resident(models, names.last()) {
            assert(r.push(names.last()).drop_last() =~= r);
        }
    }
}

/// The report on reachability and placement go by one rule: with nothing loaded
/// but the other residents, a model can be loaded at once exactly if the report
/// calls it reachable.
pub proof fn law_reachable_is_what_placement_does(s: SchedulerView, model: Seq<char>)
    requires
        s.wf(),
        s.models.dom().contains(model),
        s.used_mb() == if s.models[model].always_loaded {
            s.resident_mb() - s.models[model].vram_mb
        } else {
            s.resident_mb() as int
        },
    ensures
        s.step(s.models[model].vram_mb as nat) is Load <==> s.reachable(model),
{
}

impl Scheduler {
    /// Whether a known model can be placed at all.
    fn can_place(&self, model: &str, resident_mb: u32) -> (r: bool)
        requires
            self@.wf(),
            self@.models.dom().contains(model@),
            resident_mb == self@.resident_mb(),
        ensures
            r == self@.reachable(model@),
    {
        let ghost s = self@;
        let ghost i = s.names.index_of(model@);
        proof {
            assert(s.names.contains(model@));
            resource_registry::lemma_residents_part_of_all(s.models, s.names);
            if s.models[model@].always_loaded {
                resource_registry::lemma_resident_counted(s.models, s.names, i);
            } else {
                lemma_resident_plus_other(s.models, s.names, i);
            }
        }
        match self.resource_registry.get(model) {
            Some(entry) => {
                let floor: u32 = if entry.always_loaded {
                    resident_mb - entry.vram_mb
                } else {
                    resident_mb
                };
                fits_in_budget(floor, entry.vram_mb, self.total_model_memory_mb)
            },
            None => false,
        }
    }

    /// The models that can never be placed, the largest first.
    fn unreachable_models(&self, resident_mb: u32) -> (r: Vec<(String, u32)>)
        requires
            self@.wf(),
            resident_mb == self@.resident_mb(),
        ensures
            lists_unreachable(self@, r@, self@.names),
    {
        let all = self.resource_registry.all();
        let n: usize = all.len();
        let ghost s = self@;
        let mut out: Vec<(String, u32)> = Vec::new();
        let mut i: usize = 0;
        while i < n
            invariant
                self@ == s,
                s.wf(),
                i <= n,
                n == s.names.len(),
                all.keys() == s.names,
                all@ == s.models,
                resident_mb == s.resident_mb(),
                lists_unreachable(s, out@, s.names.take(i as int)),
            decreases n - i,
        {
            let name = all.key_at(i);
            let mb: u32 = all.value_at(i).vram_mb;
            assert(s.names.contains(s.names[i as int]));
            let ghost before = out@;
            let ghost seen = s.names.take(i as int);
            let ghost now = s.names.take(i + 1);
            assert(now =~= seen.push(name@));
            if !self.can_place(name.as_str(), resident_mb) {
                let mut at: usize = 0;
                while at < out.len() && out[at].1 >= mb
                    invariant
                        at <= out@.len(),
                        out@ == before,
                        forall|k: int| 0 <= k < at ==> (#[trigger] out@[k]).1 >= mb,
                    decreases out@.len() - at,
                {
                    at = at + 1;
                }
                out.insert(at, (name.clone(), mb));
                proof {
                    let entry = out@[at as int];
                    assert(out@ =~= before.insert(at as int, entry));
                    lemma_unreachable_more(s, before, seen, at as int, entry);
                }
            } else {
                proof {
                    lemma_unreachable_same(s, before, seen, name@);
                }
            }
            i = i + 1;
        }
        assert(s.names.take(n as int) =~= s.names);
        out
    }

    /// What can be done with the budget and the registries as they are: which
    /// models can never be placed, which categories nobody serves, which ones
    /// are not served by the model meant for them. Nothing changes.
    pub fn reachability(&self) -> (r: ReachabilityReport)
        requires
            self@.wf(),
        ensures
            r.budget_mb == self@.budget_mb,
            r.resident_mb == self@.resident_mb(),
            lists_unreachable(self@, r.unreachable@, self@.names),
            text::sorted(text::texts(r.empty_categories@)),
            forall|c: Seq<char>| #[trigger]
                text::texts(r.empty_categories@).contains(c) <==> self@.categories.dom().contains(c)
                    && self@.serves(c) is None,
            text::sorted(r.served_by_fallback@.map_values(|e: (String, String, String)| e.0@)),
            forall|i: int|
                0 <= i < r.served_by_fallback@.len() ==> {
                    let e = #[trigger] r.served_by_fallback@[i];
                    &&& self@.by_fallback(e.0@)
                    &&& e.1@ == self@.meant_for(e.0@)
                    &&& self@.serves(e.0@) == Some(e.2@)
                },
            forall|c: Seq<char>| #[trigger]
                self@.by_fallback(c) ==> r.served_by_fallback@.map_values(
                    |e: (String, String, String)| e.0@,
                ).contains(c),
    {
        let ghost s = self@;
        proof {
            resource_registry::lemma_residents_part_of_all(s.models, s.names);
        }
        let resident_mb: u32 = self.resource_registry.always_loaded_vram_mb();
        let unreachable = self.unreachable_models(resident_mb);
        let named = self.capability_registry.categories();
        let ghost known = text::texts(named@);
        let categories = text::sort(named);
        let ghost names = text::texts(categories@);
        let mut empty_categories: Vec<String> = Vec::new();
        let mut served_by_fallback: Vec<(String, String, String)> = Vec::new();
        let ghost mut fallback_names: Seq<Seq<char>> = Seq::empty();
        let mut i: usize = 0;
        assert(names.take(0) =~= Seq::<Seq<char>>::empty());
        assert(text::texts(empty_categories@) =~= Seq::<Seq<char>>::empty());
        while i < categories.len()
            invariant
                self@ == s,
                s.wf(),
                resident_mb == s.resident_mb(),
                i <= categories@.len(),
                names == text::texts(categories@),
                text::sorted(names),
                forall|c: Seq<char>| names.contains(c) <==> s.categories.dom().contains(c),
                picked(names.take(i as int), text::texts(empty_categories@)),
                forall|c: Seq<char>| #[trigger]
                    text::texts(empty_categories@).contains(c) <==> names.take(i as int).contains(c)
                        && s.serves(c) is None,
                fallback_names =~= served_by_fallback@.map_values(
                    |e: (String, String, String)| e.0@,
                ),
                picked(names.take(i as int), fallback_names),
                forall|k: int|
                    0 <= k < served_by_fallback@.len() ==> {
                        let e = #[trigger] served_by_fallback@[k];
                        &&& s.by_fallback(e.0@)
                        &&& e.1@ == s.meant_for(e.0@)
                        &&& s.serves(e.0@) == Some(e.2@)
                    },
                forall|c: Seq<char>| #[trigger]
                    fallback_names.contains(c) <==> names.take(i as int).contains(c)
                        && s.by_fallback(c),
            decreases categories@.len() - i,
        {
            let category = categories[i].as_str();
            assert(names[i as int] == category@);
            assert(names.contains(names[i as int]));
            let ghost seen = names.take(i as int);
            assert(names.take(i + 1) =~= seen.push(category@));
            let candidates = self.capability_registry.candidates(category);
            let winner = self.find_winner(&candidates, resident_mb);
            let ghost empty_before = text::texts(empty_categories@);
            let ghost fallback_before = fallback_names;
            proof {
                lemma_picked_push(seen, empty_before, category@);
                lemma_picked_push(seen, fallback_before, category@);
                lemma_contains_push(seen, category@);
                lemma_contains_push(empty_before, category@);
                lemma_contains_push(fallback_before, category@);
                lemma_not_seen(names, i as int);
            }
            match winner {
                None => {
                    empty_categories.push(category.to_owned());
                },
                Some(actual) => {
                    if !text::same(actual.as_str(), candidates[0].as_str()) {
                        assert(text::texts(candidates@)[0] == candidates@[0]@);
                        served_by_fallback.push(
                            (category.to_owned(), candidates[0].clone(), actual),
                        );
                        proof {
                            fallback_names = fallback_names.push(category@);
                        }
                    } else {
                        assert(text::texts(candidates@)[0] == candidates@[0]@);
                    }
                },
            }
            i = i + 1;
        }
        assert(names.take(names.len() as int) =~= names);
        proof {
            lemma_picked_sorted(names, text::texts(empty_categories@));
            lemma_picked_sorted(names, fallback_names);
        }
        ReachabilityReport {
            budget_mb: self.total_model_memory_mb,
            resident_mb,
            unreachable,
            empty_categories,
            served_by_fallback,
        }
    }

    /// The first candidate that is known and can be placed.
    fn find_winner(&self, candidates: &Vec<String>, resident_mb: u32) -> (r: Option<String>)
        requires
            self@.wf(),
            resident_mb == self@.resident_mb(),
        ensures
            text::opt_text(r) == self@.winner(text::texts(candidates@), 0),
            r is Some ==> candidates@.len() > 0,
    {
        let ghost names = text::texts(candidates@);
        let mut i: usize = 0;
        while i < candidates.len()
            invariant
                self@.wf(),
                resident_mb == self@.resident_mb(),
                i <= candidates@.len(),
                names == text::texts(candidates@),
                self@.winner(names, 0) == self@.winner(names, i as int),
            decreases candidates@.len() - i,
        {
            assert(names[i as int] == candidates@[i as int]@);
            let candidate = candidates[i].as_str();
            if self.resource_registry.get(candidate).is_some() && self.can_place(
                candidate,
                resident_mb,
            ) {
                return Some(candidates[i].clone());
            }
            i = i + 1;
        }
        None
    }

    /// The residents to be loaded at the start, or why they cannot be.
    pub fn preload_plan(&self) -> (r: Result<Vec<ModelId>, String>)
        requires
            self@.wf(),
        ensures
            r is Ok <==> self@.resident_mb() <= self@.budget_mb,
            r matches Ok(models) ==> text::texts(models@) == resource_registry::residents(
                self@.models,
                self@.names,
            ),
            r matches Err(e) ==> e@ == "always_loaded модели требуют "@ + text::decimal(
                self@.resident_mb(),
            ) + " MB памяти, а бюджет всего "@ + text::decimal(self@.budget_mb as nat)
                + " MB — проверьте resource_registry.yaml"@,
    {
        proof {
            resource_registry::lemma_residents_part_of_all(self@.models, self@.names);
        }
        let required: u32 = self.resource_registry.always_loaded_vram_mb();
        if required > self.total_model_memory_mb {
            let mut e = String::from_str("always_loaded модели требуют ");
            let a = text::show(required as u64);
            e.append(a.as_str());
            e.append(" MB памяти, а бюджет всего ");
            let b = text::show(self.total_model_memory_mb as u64);
            e.append(b.as_str());
            e.append(" MB — проверьте resource_registry.yaml");
            return Err(e);
        }
        Ok(self.resource_registry.always_loaded_models())
    }

    /// The load of a resident begins. Gives the provider's name of the model.
    pub fn preload_begin(&mut self, model: &str, now: Timestamp) -> (r: String)
        requires
            old(self)@.wf(),
            old(self)@.placement is None,
        ensures
            r@ == resource_registry::key_of(old(self)@.models, model@),
            final(self)@ == (SchedulerView {
                operation: Some(
                    OperationView {
                        kind: "загрузка"@,
                        model: model@,
                        reason: "always_loaded"@,
                        started_at: now,
                    },
                ),
                ..old(self)@
            }),
            final(self)@.wf(),
    {
        self.current_operation = Some(
            ActiveOperation {
                kind: LOADING,
                model: model.to_owned(),
                reason: String::from_str("always_loaded"),
                started_at: now,
            },
        );
        self.resource_registry.provider_key(model)
    }

    /// The load of a resident has ended, with the backend's error where it
    /// failed.
    pub fn preload_finished(
        &mut self,
        model: &str,
        outcome: Result<(), String>,
        now: Timestamp,
    ) -> (r: Result<(), String>)
        requires
            old(self)@.wf(),
            old(self)@.placement is None,
        ensures
            r is Ok <==> outcome is Ok,
            outcome is Ok ==> final(self)@ == old(self)@.at_rest().with_loaded(model@, now),
            outcome is Err ==> final(self)@ == old(self)@.at_rest(),
            r matches Err(e) ==> e@ == "не удалось загрузить always_loaded модель "@ + model@
                + ": "@ + outcome->Err_0@,
            final(self)@.wf(),
    {
        self.current_operation = None;
        assert(self@ =~= old(self)@.at_rest());
        match outcome {
            Ok(_) => {
                proof {
                    lemma_lists_insert(old(self)@.order, old(self)@.loaded, model@, now);
                }
                self.loaded.insert(model.to_owned(), now);
                assert(self@ =~= old(self)@.at_rest().with_loaded(model@, now));
                Ok(())
            },
            Err(detail) => {
                let mut e = String::from_str("не удалось загрузить always_loaded модель ");
                e.append(model);
                e.append(": ");
                e.append(detail.as_str());
                Err(e)
            },
        }
    }

    /// The instances left over from earlier runs are unloaded one by one; where
    /// there are any, nothing counts as loaded afterwards. Gives the instances
    /// to unload: all of them, whatever is going on, for at the end of the
    /// program nothing is to be left behind.
    pub fn unload_stale_instances(&mut self, instances: Vec<String>) -> (r: Vec<String>)
        requires
            old(self)@.wf(),
        ensures
            r == instances,
            final(self)@ == if instances@.len() > 0 {
                old(self)@.emptied()
            } else {
                old(self)@
            },
            final(self)@.wf(),
    {
        if instances.len() > 0 {
            self.loaded = Keyed::new();
            proof {
                self.swept@ = old(self)@.swept || old(self)@.in_use();
            }
            assert(self@ =~= old(self)@.emptied());
        }
        instances
    }
}

/// Whether entries list the models among `names` that can never be placed, the
/// largest first, each once and with its size.
pub open spec fn lists_unreachable(
    s: SchedulerView,
    entries: Seq<(String, u32)>,
    names: Seq<Seq<char>>,
) -> bool {
    &&& forall|i: int, j: int|
        0 <= i < j < entries.len() ==> (#[trigger] entries[i]).1 >= (#[trigger] entries[j]).1
    &&& forall|i: int, j: int|
        0 <= i < j < entries.len() ==> (#[trigger] entries[i]).0@ != (#[trigger] entries[j]).0@
    &&& forall|i: int|
        0 <= i < entries.len() ==> {
            let e = #[trigger] entries[i];
            &&& names.contains(e.0@)
            &&& !s.reachable(e.0@)
            &&& e.1 == s.models[e.0@].vram_mb
        }
    &&& forall|n: Seq<char>|
        names.contains(n) && !#[trigger] s.reachable(n) ==> exists|i: int|
            0 <= i < entries.len() && (#[trigger] entries[i]).0@ == n
}

proof fn lemma_contains_push(v: Seq<Seq<char>>, x: Seq<char>)
    ensures
        forall|t: Seq<char>| #[trigger] v.push(x).contains(t) <==> v.contains(t) || t == x,
{
    assert forall|t: Seq<char>| #[trigger] v.push(x).contains(t) <==> v.contains(t) || t == x by {
        if v.contains(t) {
            assert(v.push(x)[v.index_of(t)] == t);
        }
        assert(v.push(x)[v.len() as int] == x);
    }
}

proof fn lemma_unreachable_same(
    s: SchedulerView,
    entries: Seq<(String, u32)>,
    names: Seq<Seq<char>>,
    name: Seq<char>,
)
    requires
        lists_unreachable(s, entries, names),
        s.reachable(name),
    ensures
        lists_unreachable(s, entries, names.push(name)),
{
    lemma_contains_push(names, name);
}

proof fn lemma_unreachable_more(
    s: SchedulerView,
    entries: Seq<(String, u32)>,
    names: Seq<Seq<char>>,
    at: int,
    entry: (String, u32),
)
    requires
        lists_unreachable(s, entries, names),
        !names.contains(entry.0@),
        !s.reachable(entry.0@),
        entry.1 == s.models[entry.0@].vram_mb,
        0 <= at <= entries.len(),
        forall|k: int| 0 <= k < at ==> (#[trigger] entries[k]).1 >= entry.1,
        at < entries.len() ==> entries[at].1 <= entry.1,
    ensures
        lists_unreachable(s, entries.insert(at, entry), names.push(entry.0@)),
{
    let all = names.push(entry.0@);
    let out = entries.insert(at, entry);
    lemma_contains_push(names, entry.0@);
    assert forall|i: int| 0 <= i < out.len() && i != at implies out[i] == entries[if i < at {
        i
    } else {
        i - 1
    }] by {}
    assert(out[at] == entry);
    assert forall|i: int, j: int| 0 <= i < j < out.len() implies (#[trigger] out[i]).1 >= (
    #[trigger] out[j]).1 by {
        let i2: int = if i < at { i } else { i - 1 };
        let j2: int = if j < at { j } else { j - 1 };
        if i != at {
            assert(out[i] == entries[i2]);
        }
        if j != at {
            assert(out[j] == entries[j2]);
        }
        if i == at && j2 > at {
            assert(entries[at].1 >= entries[j2].1);
        }
    }
    assert forall|i: int, j: int| 0 <= i < j < out.len() implies (#[trigger] out[i]).0@ != (
    #[trigger] out[j]).0@ by {
        let i2: int = if i < at { i } else { i - 1 };
        let j2: int = if j < at { j } else { j - 1 };
        if i != at {
            assert(out[i] == entries[i2]);
        }
        if j != at {
            assert(out[j] == entries[j2]);
        }
    }
    assert forall|n: Seq<char>| all.contains(n) && !#[trigger] s.reachable(n) implies exists|i: int|
        0 <= i < out.len() && (#[trigger] out[i]).0@ == n by {
        if n == entry.0@ {
            assert(out[at].0@ == n);
        } else {
            let k = choose|k: int| 0 <= k < entries.len() && (#[trigger] entries[k]).0@ == n;
            let k2: int = if k < at { k } else { k + 1 };
            assert(out[k2] == entries[k]);
        }
    }
}

/// Whether texts were picked out of others, in their order.
pub open spec fn picked(from: Seq<Seq<char>>, v: Seq<Seq<char>>) -> bool
    decreases from.len(),
{
    if from.len() == 0 {
        v.len() == 0
    } else if v.len() > 0 && v.last() == from.last() {
        picked(from.drop_last(), v.drop_last())
    } else {
        picked(from.drop_last(), v)
    }
}

proof fn lemma_picked_push(from: Seq<Seq<char>>, v: Seq<Seq<char>>, x: Seq<char>)
    requires
        picked(from, v),
    ensures
        picked(from.push(x), v.push(x)),
        !v.contains(x) ==> picked(from.push(x), v),
{
    assert(from.push(x).drop_last() =~= from);
    assert(v.push(x).drop_last() =~= v);
    if v.len() > 0 && v.last() == x {
        assert(v.contains(v[v.len() - 1]));
    }
}

proof fn lemma_picked_from(from: Seq<Seq<char>>, v: Seq<Seq<char>>)
    requires
        picked(from, v),
    ensures
        forall|t: Seq<char>| #[trigger] v.contains(t) ==> from.contains(t),
    decreases from.len(),
{
    if from.len() > 0 {
        let f = from.drop_last();
        lemma_contains_push(f, from.last());
        assert(f.push(from.last()) =~= from);
        if v.len() > 0 && v.last() == from.last() {
            let w = v.drop_last();
            lemma_picked_from(f, w);
            lemma_contains_push(w, v.last());
            assert(w.push(v.last()) =~= v);
        } else {
            lemma_picked_from(f, v);
        }
    }
}

proof fn lemma_picked_sorted(from: Seq<Seq<char>>, v: Seq<Seq<char>>)
    requires
        picked(from, v),
        text::sorted(from),
    ensures
        text::sorted(v),
    decreases from.len(),
{
    if from.len() > 0 {
        let f = from.drop_last();
        assert(text::sorted(f));
        if v.len() > 0 && v.last() == from.last() {
            let w = v.drop_last();
            lemma_picked_sorted(f, w);
            lemma_picked_from(f, w);
            assert forall|i: int, j: int| 0 <= i < j < v.len() implies text::precedes(
                #[trigger] v[i],
                #[trigger] v[j],
            ) by {
                if j < v.len() - 1 {
                    assert(w[i] == v[i] && w[j] == v[j]);
                } else {
                    assert(w.contains(w[i]));
                    let k = f.index_of(v[i]);
                    assert(from[k] == v[i] && from[from.len() - 1] == v[j]);
                }
            }
        } else {
            lemma_picked_sorted(f, v);
        }
    }
}

/// In a sorted list the texts before a position differ from the one at it.
proof fn lemma_not_seen(names: Seq<Seq<char>>, i: int)
    requires
        text::sorted(names),
        0 <= i < names.len(),
    ensures
        !names.take(i).contains(names[i]),
{
    if names.take(i).contains(names[i]) {
        let k = names.take(i).index_of(names[i]);
        assert(text::precedes(names[k], names[i]));
        text::lemma_precedes_total(names[i], names[i]);
    }
}

/// One line of the report in the log.
pub struct ReportLine {
    pub warning: bool,
    pub line: String,
}

/// A line by its characters.
#[verifier::ext_equal]
pub struct ReportLineView {
    pub warning: bool,
    pub line: Seq<char>,
}

impl View for ReportLine {
    type V = ReportLineView;

    open spec fn view(&self) -> ReportLineView {
        ReportLineView { warning: self.warning, line: self.line@ }
    }
}

/// The views of several lines.
pub open spec fn report_lines(v: Seq<ReportLine>) -> Seq<ReportLineView> {
    v.map_values(|l: ReportLine| l@)
}

broadcast proof fn report_lines_push(v: Seq<ReportLine>, l: ReportLine)
    ensures
        #[trigger] report_lines(v.push(l)) == report_lines(v).push(l@),
{
    assert(report_lines(v.push(l)) =~= report_lines(v).push(l@));
}

impl ReachabilityReport {
    /// The line on the budget.
    pub open spec fn budget_line(&self) -> ReportLineView {
        ReportLineView {
            warning: false,
            line: "== достижимость == бюджет "@ + text::decimal(self.budget_mb as nat)
                + " MB, из них "@ + text::decimal(self.resident_mb as nat)
                + " MB заняты резидентами постоянно (свободно под задачу: "@ + text::decimal(
                if self.budget_mb >= self.resident_mb {
                    (self.budget_mb - self.resident_mb) as nat
                } else {
                    0
                },
            ) + " MB)"@,
        }
    }

    /// The line on a model that can never be placed.
    pub open spec fn unreachable_line(&self, e: (String, u32)) -> ReportLineView {
        ReportLineView {
            warning: true,
            line: "== достижимость == модель '"@ + e.0@ + "' НЕДОСТИЖИМА: "@ + text::decimal(
                e.1 as nat,
            ) + " MB + "@ + text::decimal(self.resident_mb as nat) + " MB резидентов > "@
                + text::decimal(self.budget_mb as nat) + " MB бюджета"@,
        }
    }

    /// The line on a category that nobody serves.
    pub open spec fn empty_line(c: String) -> ReportLineView {
        ReportLineView {
            warning: true,
            line: "== достижимость == категория '"@ + c@
                + "' ПУСТА: ни один кандидат цепочки не проходит, задачи в ней будут падать"@,
        }
    }

    /// The line on a category that is served by another model than the primary
    /// one.
    pub open spec fn fallback_line(e: (String, String, String)) -> ReportLineView {
        ReportLineView {
            warning: true,
            line: "== достижимость == категория '"@ + e.0@ + "' обслуживается fallback'ом '"@
                + e.2@ + "', а не назначенной '"@ + e.1@ + "'"@,
        }
    }

    /// The lines on the models.
    pub open spec fn model_lines(&self) -> Seq<ReportLineView> {
        if self.unreachable@.len() == 0 {
            seq![
                ReportLineView {
                    warning: false,
                    line: "== достижимость == все модели реестра достижимы"@,
                },
            ]
        } else {
            self.unreachable@.map_values(|e: (String, u32)| self.unreachable_line(e))
        }
    }

    /// The last line, where every category is served as it is meant to be.
    pub open spec fn closing_lines(&self) -> Seq<ReportLineView> {
        if self.empty_categories@.len() == 0 && self.served_by_fallback@.len() == 0 {
            seq![
                ReportLineView {
                    warning: false,
                    line: "== достижимость == все категории обслуживаются назначенными моделями"@,
                },
            ]
        } else {
            Seq::empty()
        }
    }

    /// The report as lines of the log. There is a line also where nothing is
    /// wrong.
    pub fn log_reachability(&self) -> (r: Vec<ReportLine>)
        ensures
            report_lines(r@) == seq![self.budget_line()] + self.model_lines()
                + self.empty_categories@.map_values(|c: String| Self::empty_line(c))
                + self.served_by_fallback@.map_values(
                |e: (String, String, String)| Self::fallback_line(e),
            ) + self.closing_lines(),
    {
        broadcast use report_lines_push;

        let mut out: Vec<ReportLine> = Vec::new();
        let mut line = String::from_str("== достижимость == бюджет ");
        let budget = text::show(self.budget_mb as u64);
        let resident = text::show(self.resident_mb as u64);
        let free: u32 = if self.budget_mb >= self.resident_mb {
            self.budget_mb - self.resident_mb
        } else {
            0
        };
        let free_text = text::show(free as u64);
        line.append(budget.as_str());
        line.append(" MB, из них ");
        line.append(resident.as_str());
        line.append(" MB заняты резидентами постоянно (свободно под задачу: ");
        line.append(free_text.as_str());
        line.append(" MB)");
        out.push(ReportLine { warning: false, line });
        let ghost done = seq![self.budget_line()];
        assert(report_lines(out@) =~= done);

        if self.unreachable.len() == 0 {
            out.push(
                ReportLine {
                    warning: false,
                    line: String::from_str("== достижимость == все модели реестра достижимы"),
                },
            );
            assert(report_lines(out@) =~= done + self.model_lines());
        } else {
            let ghost lines = self.model_lines();
            let mut i: usize = 0;
            assert(done + lines.take(0) =~= done);
            while i < self.unreachable.len()
                invariant
                    i <= self.unreachable@.len(),
                    lines == self.unreachable@.map_values(
                        |e: (String, u32)| self.unreachable_line(e),
                    ),
                    budget@ == text::decimal(self.budget_mb as nat),
                    resident@ == text::decimal(self.resident_mb as nat),
                    report_lines(out@) == done + lines.take(i as int),
                decreases self.unreachable@.len() - i,
            {
                let e = &self.unreachable[i];
                let mut line = String::from_str("== достижимость == модель '");
                line.append(e.0.as_str());
                line.append("' НЕДОСТИЖИМА: ");
                let mb = text::show(e.1 as u64);
                line.append(mb.as_str());
                line.append(" MB + ");
                line.append(resident.as_str());
                line.append(" MB резидентов > ");
                line.append(budget.as_str());
                line.append(" MB бюджета");
                out.push(ReportLine { warning: true, line });
                assert(done + lines.take(i + 1) =~= (done + lines.take(i as int)).push(
                    lines[i as int],
                ));
                i = i + 1;
            }
            assert(lines.take(lines.len() as int) =~= lines);
        }

        let ghost done2 = done + self.model_lines();
        let ghost empties = self.empty_categories@.map_values(|c: String| Self::empty_line(c));
        let mut j: usize = 0;
        assert(done2 + empties.take(0) =~= done2);
        while j < self.empty_categories.len()
            invariant
                j <= self.empty_categories@.len(),
                empties == self.empty_categories@.map_values(|c: String| Self::empty_line(c)),
                report_lines(out@) == done2 + empties.take(j as int),
            decreases self.empty_categories@.len() - j,
        {
            let mut line = String::from_str("== достижимость == категория '");
            line.append(self.empty_categories[j].as_str());
            line.append(
                "' ПУСТА: ни один кандидат цепочки не проходит, задачи в ней будут падать",
            );
            out.push(ReportLine { warning: true, line });
            assert(done2 + empties.take(j + 1) =~= (done2 + empties.take(j as int)).push(
                empties[j as int],
            ));
            j = j + 1;
        }
        assert(empties.take(empties.len() as int) =~= empties);

        let ghost done3 = done2 + empties;
        let ghost served = self.served_by_fallback@.map_values(
            |e: (String, String, String)| Self::fallback_line(e),
        );
        let mut k: usize = 0;
        assert(done3 + served.take(0) =~= done3);
        while k < self.served_by_fallback.len()
            invariant
                k <= self.served_by_fallback@.len(),
                served == self.served_by_fallback@.map_values(
                    |e: (String, String, String)| Self::fallback_line(e),
                ),
                report_lines(out@) == done3 + served.take(k as int),
            decreases self.served_by_fallback@.len() - k,
        {
            let e = &self.served_by_fallback[k];
            let mut line = String::from_str("== достижимость == категория '");
            line.append(e.0.as_str());
            line.append("' обслуживается fallback'ом '");
            line.append(e.2.as_str());
            line.append("', а не назначенной '");
            line.append(e.1.as_str());
            line.append("'");
            out.push(ReportLine { warning: true, line });
            assert(done3 + served.take(k + 1) =~= (done3 + served.take(k as int)).push(
                served[k as int],
            ));
            k = k + 1;
        }
        assert(served.take(served.len() as int) =~= served);

        if self.empty_categories.len() == 0 && self.served_by_fallback.len() == 0 {
            out.push(
                ReportLine {
                    warning: false,
                    line: String::from_str(
                        "== достижимость == все категории обслуживаются назначенными моделями",
                    ),
                },
            );
        }
        assert(report_lines(out@) =~= done3 + served + self.closing_lines());
        out
    }
}

/// While the permitted number of generations run, every further request is
/// refused and nothing changes.
pub proof fn law_no_task_beyond_the_limit(
    s: SchedulerView,
    name: Seq<char>,
    allow_manual: bool,
    now: Timestamp,
)
    requires
        s.wf(),
        s.generations() >= MAX_CONCURRENT_TASKS,
    ensures
        s.asked(name, allow_manual, now) == (s, EffectView::Refused(s.too_many())),
        s.asked_by_name(name, now).0 == s,
        s.asked_by_name(name, now).1 is Refused,
{
}

/// While a generation or a placement is under way, a request neither loads nor
/// unloads anything: it gets a model that is loaded already, or it is refused.
pub proof fn law_one_placement_at_a_time(
    s: SchedulerView,
    name: Seq<char>,
    allow_manual: bool,
    now: Timestamp,
)
    requires
        s.wf(),
        s.generations() > 0 || s.placement is Some,
    ensures
        s.asked(name, allow_manual, now).1 is Ready || s.asked(name, allow_manual, now).1 is Refused,
        s.asked(name, allow_manual, now).0.order == s.order,
        s.asked(name, allow_manual, now).0.placement == s.placement,
        s.asked_by_name(name, now).1 is Ready || s.asked_by_name(name, now).1 is Refused,
        s.asked_by_name(name, now).0.order == s.order,
        s.asked_by_name(name, now).0.placement == s.placement,
{
}

/// A model is unloaded only if it is loaded, not resident, and no generation
/// runs on it; and it is a model not used for longest among those.
pub proof fn law_eviction_spares_busy_and_resident(s: SchedulerView, search: SearchView, now: Timestamp)
    requires
        s.wf(),
        0 <= search.position <= search.candidates.len(),
    ensures
        s.searched(search, now).1 matches EffectView::Unload { model, .. } ==> {
            &&& s.loaded.dom().contains(model)
            &&& !resource_registry::is_resident(s.models, model)
            &&& busy_count(s.busy, model) == 0
            &&& forall|m: Seq<char>|
                s.loaded.dom().contains(m) && #[trigger] s.evictable(m) ==> !s.loaded[m].before(
                    s.loaded[model],
                )
        },
{
    law_victim(s);
}

/// Whether a request, a load or an unload leaves a busy model alone: it stays
/// loaded, no fewer generations run on it, and it is not to be unloaded.
pub open spec fn leaves_alone(
    before: SchedulerView,
    after: (SchedulerView, EffectView),
    model: Seq<char>,
) -> bool {
    &&& after.0.loaded.dom().contains(model)
    &&& busy_count(after.0.busy, model) >= busy_count(before.busy, model)
    &&& after.1 matches EffectView::Unload { model: victim, .. } ==> victim != model
}

/// Whether a model that was handed out is loaded and marked as busy.
pub open spec fn hands_out_busy(before: SchedulerView, after: (SchedulerView, EffectView)) -> bool {
    after.1 matches EffectView::Ready { model, marks } ==> {
        &&& marks == model
        &&& after.0.at_hand(model)
        &&& busy_count(after.0.busy, model) == busy_count(before.busy, model) + 1
    }
}

/// What a search does keeps the state sound.
proof fn lemma_searched(s: SchedulerView, search: SearchView, now: Timestamp)
    requires
        s.wf(),
        s.placement is None,
        0 <= search.position <= search.candidates.len(),
    ensures
        s.searched(search, now).0.wf(),
        hands_out_busy(s, s.searched(search, now)),
        s.searched(search, now).0.swept == s.swept,
        forall|m: Seq<char>|
            !s.swept && #[trigger] busy_count(s.busy, m) > 0 ==> leaves_alone(
                s,
                s.searched(search, now),
                m,
            ),
{
    let k = s.viable(search.candidates, search.position);
    lemma_viable(s, search.candidates, search.position);
    law_victim(s);
    if k < search.candidates.len() {
        let model = search.candidates[k];
        if s.loaded.dom().contains(model) {
            lemma_touched_and_granted(s, search.subject, model, now);
        }
    }
}

/// Handing out a model at hand keeps the state sound.
proof fn lemma_touched_and_granted(
    s: SchedulerView,
    subject: SubjectView,
    model: Seq<char>,
    now: Timestamp,
)
    requires
        s.wf(),
        s.at_hand(model),
    ensures
        s.touched(model, now).wf(),
        s.touched(model, now).granted(subject, model).0.wf(),
        hands_out_busy(s, s.touched(model, now).granted(subject, model)),
        forall|m: Seq<char>|
            !s.swept && #[trigger] busy_count(s.busy, m) > 0 ==> leaves_alone(
                s,
                s.touched(model, now).granted(subject, model),
                m,
            ),
{
    lemma_lists_insert(s.order, s.loaded, model, now);
    let t = s.touched(model, now);
    if t.generations() < MAX_CONCURRENT_TASKS {
        law_begun_counts_one_more(t, model);
    }
}

proof fn lemma_first_loaded(s: SchedulerView, candidates: Seq<Seq<char>>, from: int)
    requires
        0 <= from,
    ensures
        s.first_loaded(candidates, from) matches Some(m) ==> s.at_hand(m),
    decreases candidates.len() - from,
{
    if from < candidates.len() && !s.at_hand(candidates[from]) {
        lemma_first_loaded(s, candidates, from + 1);
    }
}

/// A session keeps its model: while generations are marked on a model, whatever
/// is asked for and whatever load or unload ends, the model stays loaded with
/// its marks and is not chosen to be unloaded, and no mark goes but one that is
/// given back. A model that is handed out is loaded, marked, and not being
/// unloaded. The state stays sound, so this holds of every state that follows, up
/// to the end of the program, when everything is unloaded at once.
pub proof fn law_session_keeps_its_model(
    s: SchedulerView,
    held: Seq<char>,
    name: Seq<char>,
    allow_manual: bool,
    ok: bool,
    now: Timestamp,
)
    requires
        s.wf(),
        !s.swept,
        busy_count(s.busy, held) > 0,
    ensures
        s.loaded.dom().contains(held),
        s.at_hand(held),
        s.asked(name, allow_manual, now).0.wf(),
        !s.asked(name, allow_manual, now).0.swept,
        leaves_alone(s, s.asked(name, allow_manual, now), held),
        s.asked_by_name(name, now).0.wf(),
        !s.asked_by_name(name, now).0.swept,
        leaves_alone(s, s.asked_by_name(name, now), held),
        s.placement matches Some(p) && p.stage is Loading ==> s.after_load(ok, now).0.wf()
            && !s.after_load(ok, now).0.swept && leaves_alone(s, s.after_load(ok, now), held),
        s.placement matches Some(p) && p.stage is Unloading ==> s.after_unload(ok, now).0.wf()
            && !s.after_unload(ok, now).0.swept && leaves_alone(s, s.after_unload(ok, now), held),
        s.ended(name).wf(),
        !s.ended(name).swept,
        s.ended(name).loaded == s.loaded,
        busy_count(s.ended(name).busy, held) == if name == held {
            busy_count(s.busy, held) - 1
        } else {
            busy_count(s.busy, held) as int
        },
        s.at_rest().wf(),
        s.at_rest().at_hand(held),
        s.in_use(),
{
    law_handed_out_model_is_marked(s, name, allow_manual, ok, now);
    law_ended_counts_one_less(s, name);
    lemma_busy_within_running(s.busy, s.busy_order, held);
}

/// A model that is handed out, at once or after a load or an unload, is loaded,
/// not being unloaded, and marked once more than before; every busy model is left
/// alone meanwhile, and the state stays sound.
pub proof fn law_handed_out_model_is_marked(
    s: SchedulerView,
    name: Seq<char>,
    allow_manual: bool,
    ok: bool,
    now: Timestamp,
)
    requires
        s.wf(),
    ensures
        s.asked(name, allow_manual, now).0.wf(),
        hands_out_busy(s, s.asked(name, allow_manual, now)),
        s.asked(name, allow_manual, now).0.swept == s.swept,
        forall|m: Seq<char>|
            !s.swept && #[trigger] busy_count(s.busy, m) > 0 ==> leaves_alone(
                s,
                s.asked(name, allow_manual, now),
                m,
            ),
        s.asked_by_name(name, now).0.wf(),
        hands_out_busy(s, s.asked_by_name(name, now)),
        s.asked_by_name(name, now).0.swept == s.swept,
        forall|m: Seq<char>|
            !s.swept && #[trigger] busy_count(s.busy, m) > 0 ==> leaves_alone(
                s,
                s.asked_by_name(name, now),
                m,
            ),
        s.placement matches Some(p) && p.stage is Loading ==> {
            &&& s.after_load(ok, now).0.wf()
            &&& hands_out_busy(s, s.after_load(ok, now))
            &&& s.after_load(ok, now).0.swept == s.swept
            &&& forall|m: Seq<char>|
                !s.swept && #[trigger] busy_count(s.busy, m) > 0 ==> leaves_alone(
                    s,
                    s.after_load(ok, now),
                    m,
                )
        },
        s.placement matches Some(p) && p.stage is Unloading ==> {
            &&& s.after_unload(ok, now).0.wf()
            &&& hands_out_busy(s, s.after_unload(ok, now))
            &&& s.after_unload(ok, now).0.swept == s.swept
            &&& forall|m: Seq<char>|
                !s.swept && #[trigger] busy_count(s.busy, m) > 0 ==> leaves_alone(
                    s,
                    s.after_unload(ok, now),
                    m,
                )
        },
{
    let candidates = capability_registry::candidates_of(s.categories, name);
    lemma_first_loaded(s, candidates, 0);
    if s.standing_by(name, allow_manual) is Some {
        lemma_touched_and_granted(
            s,
            SubjectView::Category(name),
            s.standing_by(name, allow_manual)->0,
            now,
        );
    }
    if s.at_hand(name) {
        lemma_touched_and_granted(s, SubjectView::Model(name), name, now);
    }
    match s.placement {
        None => {
            lemma_searched(
                s,
                SearchView {
                    subject: SubjectView::Category(name),
                    candidates,
                    position: 0,
                    rejected: Seq::empty(),
                },
                now,
            );
            lemma_searched(
                s,
                SearchView {
                    subject: SubjectView::Model(name),
                    candidates: seq![name],
                    position: 0,
                    rejected: Seq::empty(),
                },
                now,
            );
        },
        Some(p) => {
            let resting = s.at_rest();
            if !ok {
                lemma_searched(resting, s.passed_over(p.search), now);
            } else if p.stage is Loading {
                let model = p.search.candidates[p.search.position];
                lemma_lists_insert(resting.order, resting.loaded, model, now);
                let t = resting.with_loaded(model, now);
                if t.generations() < MAX_CONCURRENT_TASKS {
                    law_begun_counts_one_more(t, model);
                }
            } else {
                let victim = p.stage->Unloading_0;
                lemma_lists_remove(resting.order, resting.loaded, victim);
                lemma_searched(resting.without(victim), p.search, now);
            }
        },
    }
}

/// Once the loaded models are within the budget, they stay within it: a request
/// takes no memory before it loads, a load that has ended took what there was
/// room for, and an unload sets memory free.
pub proof fn law_memory_stays_within_budget(
    s: SchedulerView,
    name: Seq<char>,
    allow_manual: bool,
    ok: bool,
    now: Timestamp,
)
    requires
        s.wf(),
        s.used_mb() <= s.budget_mb,
    ensures
        s.asked(name, allow_manual, now).0.used_mb() <= s.budget_mb,
        s.asked_by_name(name, now).0.used_mb() <= s.budget_mb,
        s.placement matches Some(p) && p.stage is Loading ==> s.after_load(ok, now).0.used_mb()
            <= s.budget_mb,
        s.placement matches Some(p) && p.stage is Unloading ==> s.after_unload(ok, now).0.used_mb()
            <= s.budget_mb,
        s.ended(name).used_mb() <= s.budget_mb,
{
    let candidates = capability_registry::candidates_of(s.categories, name);
    lemma_searched_keeps_order(
        s,
        SearchView {
            subject: SubjectView::Category(name),
            candidates,
            position: 0,
            rejected: Seq::empty(),
        },
        now,
    );
    lemma_searched_keeps_order(
        s,
        SearchView {
            subject: SubjectView::Model(name),
            candidates: seq![name],
            position: 0,
            rejected: Seq::empty(),
        },
        now,
    );
    if s.placement is Some {
        let p = s.placement->0;
        let model = p.search.candidates[p.search.position];
        law_memory(s.at_rest(), model, now);
        lemma_searched_keeps_order(s.at_rest(), s.passed_over(p.search), now);
        if p.stage is Unloading {
            let victim = p.stage->Unloading_0;
            law_memory(s.at_rest(), victim, now);
            lemma_searched_keeps_order(s.at_rest().without(victim), p.search, now);
        }
    }
}

/// A search changes neither what is loaded nor the registries.
proof fn lemma_searched_keeps_order(s: SchedulerView, search: SearchView, now: Timestamp)
    ensures
        s.searched(search, now).0.order == s.order,
        s.searched(search, now).0.models == s.models,
        s.searched(search, now).0.budget_mb == s.budget_mb,
{
}

/// The model at a place of a category's chain: the primary one, then the others.
pub open spec fn in_chain(entry: CapabilityEntry, i: int) -> Seq<char> {
    if i == 0 {
        entry.primary@
    } else {
        entry.fallback@[i - 1]@
    }
}

/// Whether a model is loaded and not on its way out.
pub open spec fn stands_ready(s: SchedulerView, model: Seq<char>) -> bool {
    &&& s.loaded.dom().contains(model)
    &&& s.placement matches Some(p) ==> p.stage != StageView::Unloading(model)
}

/// Whether a model may go to make room: it is loaded, not one that is to stay, and no
/// generation is counted on it.
pub open spec fn may_go(s: SchedulerView, model: Seq<char>) -> bool {
    &&& s.loaded.dom().contains(model)
    &&& !(s.models.dom().contains(model) && s.models[model].always_loaded)
    &&& !(s.busy.dom().contains(model) && s.busy[model] > 0)
}

/// Whether one point in time lies before another.
pub open spec fn earlier(a: Timestamp, b: Timestamp) -> bool {
    a.seconds < b.seconds || (a.seconds == b.seconds && a.nanos < b.nanos)
}

/// Whether a candidate cannot be had: the registry does not know it, or it is not
/// loaded, does not fit beside what is loaded, and nothing that is loaded may go.
pub open spec fn out_of_reach(s: SchedulerView, model: Seq<char>) -> bool {
    ||| !s.models.dom().contains(model)
    ||| !s.loaded.dom().contains(model) && s.used_mb() + s.models[model].vram_mb > s.budget_mb
        && forall|m: Seq<char>| !#[trigger] may_go(s, m)
}

/// Whether a candidate is served: handed out where it is loaded; loaded where it fits
/// beside what is loaded; else another model goes for it that may go, such that none
/// that may go was last used before that one. What is loaded and unloaded is known by
/// the provider's name, and shown as what is being done.
pub open spec fn served(
    s: SchedulerView,
    out: (SchedulerView, EffectView),
    candidates: Seq<Seq<char>>,
    k: int,
    subject: SubjectView,
    now: Timestamp,
) -> bool {
    let m = candidates[k];
    if s.loaded.dom().contains(m) {
        &&& out.1 == (EffectView::Ready { model: m, marks: m })
        &&& out.0.loaded == s.loaded.insert(m, now)
        &&& out.0.order == s.order
        &&& out.0.placement == s.placement
        &&& out.0.generations() == s.generations() + 1
    } else {
        &&& out.0.loaded == s.loaded
        &&& out.0.order == s.order
        &&& out.0.busy == s.busy
        &&& out.0.placement is Some
        &&& out.0.placement->0.search.subject == subject
        &&& out.0.placement->0.search.candidates == candidates
        &&& out.0.placement->0.search.position == k
        &&& out.0.operation is Some
        &&& out.0.operation->0.reason == match subject {
            SubjectView::Category(c) => c,
            SubjectView::Model(l) => l,
        }
        &&& out.0.operation->0.started_at == now
        &&& if s.used_mb() + s.models[m].vram_mb <= s.budget_mb {
            &&& out.1 == (EffectView::Load {
                model: m,
                key: resource_registry::key_of(s.models, m),
            })
            &&& out.0.placement->0.stage is Loading
            &&& out.0.operation->0.model == m
            &&& out.0.operation->0.kind == "загрузка"@
        } else {
            &&& out.1 is Unload
            &&& may_go(s, out.1->Unload_model)
            &&& forall|x: Seq<char>| #[trigger]
                may_go(s, x) ==> !earlier(s.loaded[x], s.loaded[out.1->Unload_model])
            &&& out.1->Unload_key == resource_registry::key_of(s.models, out.1->Unload_model)
            &&& out.0.placement->0.stage == StageView::Unloading(out.1->Unload_model)
            &&& out.0.operation->0.model == out.1->Unload_model
            &&& out.0.operation->0.kind == "выгрузка"@
        }
    }
}

proof fn lemma_out_of_reach(s: SchedulerView, model: Seq<char>)
    requires
        s.wf(),
    ensures
        out_of_reach(s, model) <==> s.hopeless(model),
{
    law_victim(s);
    assert forall|m: Seq<char>| #[trigger] may_go(s, m) <==> s.loaded.dom().contains(m)
        && s.evictable(m) by {}
    match s.victim() {
        Some(v) => {
            assert(may_go(s, v));
        },
        None => {
            assert forall|m: Seq<char>| !#[trigger] may_go(s, m) by {
                assert(s.loaded.dom().contains(m) ==> !s.evictable(m));
            }
        },
    }
}

/// A search serves the first candidate that can be had, from its place on, and no
/// other; where none can be had it is refused, and nothing changes.
pub proof fn law_a_search_serves_the_first_that_can_be_had(
    s: SchedulerView,
    search: SearchView,
    k: int,
    now: Timestamp,
)
    requires
        s.wf(),
        s.generations() < 2,
        0 <= search.position <= k <= search.candidates.len(),
        forall|i: int| search.position <= i < k ==> out_of_reach(s, #[trigger] search.candidates[i]),
    ensures
        k < search.candidates.len() && !out_of_reach(s, search.candidates[k]) ==> served(
            s,
            s.searched(search, now),
            search.candidates,
            k,
            search.subject,
            now,
        ),
        k == search.candidates.len() ==> s.searched(search, now).0 == s && s.searched(
            search,
            now,
        ).1 is Refused,
{
    let c = search.candidates;
    lemma_viable(s, c, search.position);
    let v = s.viable(c, search.position);
    assert forall|i: int| search.position <= i < k implies s.hopeless(#[trigger] c[i]) by {
        lemma_out_of_reach(s, c[i]);
    }
    if v < k {
        assert(s.hopeless(c[v]));
    }
    if k < c.len() && !out_of_reach(s, c[k]) {
        lemma_out_of_reach(s, c[k]);
        assert(v == k);
        law_victim(s);
        assert forall|m: Seq<char>| #[trigger] may_go(s, m) <==> s.loaded.dom().contains(m)
            && s.evictable(m) by {}
        if s.loaded.dom().contains(c[k]) {
            lemma_lists_insert(s.order, s.loaded, c[k], now);
            let t = s.touched(c[k], now);
            assert(t.generations() == s.generations());
            assert(t.wf());
            law_begun_counts_one_more(t, c[k]);
        }
    }
}

/// While another task runs, a task is served at once by the first model of its
/// category's chain that is loaded and not on its way out, whatever comes behind it;
/// where there is none it is refused, and nothing changes.
pub proof fn law_the_earliest_loaded_model_serves(
    s: SchedulerView,
    category: Seq<char>,
    allow_manual: bool,
    k: int,
    now: Timestamp,
)
    requires
        s.wf(),
        0 < s.generations() < 2,
        s.categories.dom().contains(category),
        !s.categories[category].manual_only || allow_manual,
        0 <= k <= s.categories[category].fallback@.len() + 1,
        forall|i: int|
            0 <= i < k ==> !stands_ready(s, #[trigger] in_chain(s.categories[category], i)),
    ensures
        ({
            let e = s.categories[category];
            let (after, effect) = s.asked(category, allow_manual, now);
            &&& k <= e.fallback@.len() && stands_ready(s, in_chain(e, k)) ==> {
                let m = in_chain(e, k);
                &&& effect == (EffectView::Ready { model: m, marks: m })
                &&& after.loaded == s.loaded.insert(m, now)
                &&& after.generations() == s.generations() + 1
            }
            &&& k == e.fallback@.len() + 1 ==> after == s && effect is Refused
        }),
{
    let e = s.categories[category];
    let c = capability_registry::candidates_of(s.categories, category);
    assert forall|i: int| 0 <= i < c.len() implies #[trigger] c[i] == in_chain(e, i) by {}
    assert forall|i: int| 0 <= i < k implies !s.at_hand(#[trigger] c[i]) by {
        assert(!stands_ready(s, in_chain(e, i)));
    }
    lemma_first_loaded_is(s, c, 0, k);
    if k <= e.fallback@.len() && stands_ready(s, in_chain(e, k)) {
        let m = c[k];
        lemma_lists_insert(s.order, s.loaded, m, now);
        let t = s.touched(m, now);
        assert(t.generations() == s.generations());
        law_begun_counts_one_more(t, m);
    }
}

proof fn lemma_first_loaded_is(s: SchedulerView, candidates: Seq<Seq<char>>, from: int, k: int)
    requires
        0 <= from <= k <= candidates.len(),
        forall|i: int| from <= i < k ==> !s.at_hand(#[trigger] candidates[i]),
    ensures
        k == candidates.len() ==> s.first_loaded(candidates, from) is None,
        k < candidates.len() && s.at_hand(candidates[k]) ==> s.first_loaded(candidates, from)
            == Some(candidates[k]),
    decreases k - from,
{
    if from < k {
        lemma_first_loaded_is(s, candidates, from + 1, k);
    }
}

/// With nothing running and no placement under way, a task gets the first model of its
/// category's chain that can be had: the primary one, unless that cannot be.
pub proof fn law_an_idle_machine_serves_the_first_that_can_be_had(
    s: SchedulerView,
    category: Seq<char>,
    allow_manual: bool,
    k: int,
    now: Timestamp,
)
    requires
        s.wf(),
        s.generations() == 0,
        s.placement is None,
        s.categories.dom().contains(category),
        !s.categories[category].manual_only || allow_manual,
        0 <= k <= s.categories[category].fallback@.len() + 1,
        forall|i: int|
            0 <= i < k ==> out_of_reach(s, #[trigger] in_chain(s.categories[category], i)),
    ensures
        ({
            let e = s.categories[category];
            let chain = Seq::new(e.fallback@.len() + 1, |i: int| in_chain(e, i));
            &&& k <= e.fallback@.len() && !out_of_reach(s, in_chain(e, k)) ==> served(
                s,
                s.asked(category, allow_manual, now),
                chain,
                k,
                SubjectView::Category(category),
                now,
            )
            &&& k == e.fallback@.len() + 1 ==> s.asked(category, allow_manual, now).0 == s
                && s.asked(category, allow_manual, now).1 is Refused
        }),
{
    let e = s.categories[category];
    let c = capability_registry::candidates_of(s.categories, category);
    let chain = Seq::new(e.fallback@.len() + 1, |i: int| in_chain(e, i));
    assert(c =~= chain);
    assert forall|i: int| 0 <= i < k implies out_of_reach(s, #[trigger] c[i]) by {
        assert(out_of_reach(s, in_chain(e, i)));
    }
    law_a_search_serves_the_first_that_can_be_had(
        s,
        SearchView {
            subject: SubjectView::Category(category),
            candidates: c,
            position: 0,
            rejected: Seq::empty(),
        },
        k,
        now,
    );
}

/// A category that is served on request only is not served without one; to the others a
/// request makes no difference. An unknown category is not served.
pub proof fn law_manual_categories_need_a_request(
    s: SchedulerView,
    category: Seq<char>,
    allow_manual: bool,
    now: Timestamp,
)
    requires
        s.wf(),
    ensures
        s.categories.dom().contains(category) && s.categories[category].manual_only ==> s.asked(
            category,
            false,
            now,
        ).0 == s && s.asked(category, false, now).1 is Refused,
        s.categories.dom().contains(category) && !s.categories[category].manual_only ==> s.asked(
            category,
            true,
            now,
        ) == s.asked(category, false, now),
        !s.categories.dom().contains(category) ==> s.asked(category, allow_manual, now).0 == s
            && s.asked(category, allow_manual, now).1 is Refused,
{
}

/// A named model is handed out at once where it is loaded and not on its way out, and
/// only it is. Else, with nothing running and no placement under way, it is served
/// where it can be had; in any other case the call is refused, and nothing changes.
pub proof fn law_a_named_model_is_the_one_that_serves(
    s: SchedulerView,
    label: Seq<char>,
    now: Timestamp,
)
    requires
        s.wf(),
    ensures
        ({
            let (after, effect) = s.asked_by_name(label, now);
            &&& !s.models.dom().contains(label) || s.generations() >= 2 ==> after == s && effect
                is Refused
            &&& s.models.dom().contains(label) && s.generations() < 2 && stands_ready(s, label) ==> {
                &&& effect == (EffectView::Ready { model: label, marks: label })
                &&& after.loaded == s.loaded.insert(label, now)
                &&& after.generations() == s.generations() + 1
            }
            &&& s.models.dom().contains(label) && !stands_ready(s, label) && (s.generations() > 0
                || s.placement is Some) ==> after == s && effect is Refused
            &&& s.models.dom().contains(label) && !stands_ready(s, label) && s.generations() == 0
                && s.placement is None ==> if out_of_reach(s, label) {
                after == s && effect is Refused
            } else {
                served(s, (after, effect), seq![label], 0, SubjectView::Model(label), now)
            }
        }),
{
    if s.models.dom().contains(label) && s.generations() < 2 && stands_ready(s, label) {
        lemma_lists_insert(s.order, s.loaded, label, now);
        let t = s.touched(label, now);
        assert(t.generations() == s.generations());
        law_begun_counts_one_more(t, label);
    }
    if s.models.dom().contains(label) && !stands_ready(s, label) && s.generations() == 0
        && s.placement is None {
        let search = SearchView {
            subject: SubjectView::Model(label),
            candidates: seq![label],
            position: 0,
            rejected: Seq::empty(),
        };
        if out_of_reach(s, label) {
            law_a_search_serves_the_first_that_can_be_had(s, search, 1, now);
        } else {
            law_a_search_serves_the_first_that_can_be_had(s, search, 0, now);
        }
    }
}

/// A model that was loaded is handed to the request that it was loaded for, counts as
/// used now, and nothing is being done any more; the other models stay as they were.
pub proof fn law_a_loaded_model_goes_to_its_request(s: SchedulerView, now: Timestamp)
    requires
        s.wf(),
        s.placement matches Some(p) && p.stage is Loading,
        s.generations() < 2,
    ensures
        ({
            let search = s.placement->0.search;
            let m = search.candidates[search.position];
            let (after, effect) = s.after_load(true, now);
            &&& effect == (EffectView::Ready { model: m, marks: m })
            &&& after.loaded == s.loaded.insert(m, now)
            &&& after.order == s.order.push(m)
            &&& after.placement is None
            &&& after.operation is None
            &&& after.generations() == s.generations() + 1
            &&& after.busy.dom().contains(m)
        }),
{
    let search = s.placement->0.search;
    let m = search.candidates[search.position];
    let r = s.at_rest();
    lemma_lists_insert(r.order, r.loaded, m, now);
    let t = r.with_loaded(m, now);
    law_memory(r, m, now);
    assert(t.generations() == s.generations());
    assert(t.wf());
    law_begun_counts_one_more(t, m);
}

/// A candidate that could not be loaded, or for which no room could be made, is passed
/// over: the first one behind it that can be had is served, as if the ones up to it had
/// not been asked for; where there is none the request is refused. Nothing that was
/// loaded goes.
pub proof fn law_a_failed_candidate_is_passed_over(s: SchedulerView, k: int, now: Timestamp)
    requires
        s.wf(),
        s.placement is Some,
        s.generations() < 2,
        s.placement->0.search.position < k <= s.placement->0.search.candidates.len(),
        forall|i: int|
            s.placement->0.search.position < i < k ==> out_of_reach(
                (SchedulerView { placement: None, operation: None, ..s }),
                #[trigger] s.placement->0.search.candidates[i],
            ),
    ensures
        ({
            let p = s.placement->0;
            let c = p.search.candidates;
            let rest = SchedulerView { placement: None, operation: None, ..s };
            let out = if p.stage is Loading {
                s.after_load(false, now)
            } else {
                s.after_unload(false, now)
            };
            &&& k < c.len() && !out_of_reach(rest, c[k]) ==> served(
                rest,
                out,
                c,
                k,
                p.search.subject,
                now,
            )
            &&& k == c.len() ==> out.0 == rest && out.1 is Refused
        }),
{
    let p = s.placement->0;
    let rest = SchedulerView { placement: None, operation: None, ..s };
    assert(rest == s.at_rest());
    let search = s.passed_over(p.search);
    assert forall|i: int| search.position <= i < k implies out_of_reach(
        rest,
        #[trigger] search.candidates[i],
    ) by {
        assert(out_of_reach(rest, p.search.candidates[i]));
    }
    law_a_search_serves_the_first_that_can_be_had(rest, search, k, now);
}

/// A model that was unloaded is gone, alone, and its memory is free; the candidate that
/// needed the room is tried again before any other.
pub proof fn law_room_that_was_made_is_used(s: SchedulerView, k: int, now: Timestamp)
    requires
        s.wf(),
        s.placement matches Some(p) && p.stage is Unloading,
        s.generations() < 2,
        s.placement->0.search.position <= k <= s.placement->0.search.candidates.len(),
        forall|i: int|
            s.placement->0.search.position <= i < k ==> out_of_reach(
                s.at_rest().without(s.placement->0.stage->Unloading_0),
                #[trigger] s.placement->0.search.candidates[i],
            ),
    ensures
        ({
            let p = s.placement->0;
            let c = p.search.candidates;
            let v = p.stage->Unloading_0;
            let rest = s.at_rest().without(v);
            let out = s.after_unload(true, now);
            &&& rest.loaded == s.loaded.remove(v)
            &&& rest.placement is None
            &&& rest.operation is None
            &&& rest.busy == s.busy
            &&& rest.models == s.models
            &&& rest.budget_mb == s.budget_mb
            &&& s.loaded.dom().contains(v) && s.models.dom().contains(v) ==> rest.used_mb()
                + s.models[v].vram_mb == s.used_mb()
            &&& k < c.len() && !out_of_reach(rest, c[k]) ==> served(
                rest,
                out,
                c,
                k,
                p.search.subject,
                now,
            )
            &&& k == c.len() ==> out.0 == rest && out.1 is Refused
        }),
{
    let p = s.placement->0;
    let v = p.stage->Unloading_0;
    let r = s.at_rest();
    let rest = r.without(v);
    lemma_lists_remove(r.order, r.loaded, v);
    law_memory(r, v, now);
    if !s.swept {
        assert forall|m: Seq<char>| #[trigger] busy_count(rest.busy, m) > 0 implies rest.loaded.dom().contains(
            m,
        ) by {
            assert(m != v);
        }
    }
    assert(rest.wf());
    law_a_search_serves_the_first_that_can_be_had(rest, p.search, k, now);
}

/// Whether a model can be placed at all: alone beside those that are to stay, of which
/// it may be one itself.
pub open spec fn can_ever_be_placed(s: SchedulerView, model: Seq<char>) -> bool {
    &&& s.models.dom().contains(model)
    &&& s.resident_mb() + (if s.models[model].always_loaded {
        0
    } else {
        s.models[model].vram_mb as int
    }) <= s.budget_mb
}

/// The report calls a category served by the first model of its chain that can be
/// placed at all, and empty where none can be.
pub proof fn law_the_report_names_the_first_that_can_be_placed(
    s: SchedulerView,
    category: Seq<char>,
    k: int,
)
    requires
        s.wf(),
        s.categories.dom().contains(category),
        0 <= k <= s.categories[category].fallback@.len() + 1,
        forall|i: int|
            0 <= i < k ==> !can_ever_be_placed(
                s,
                #[trigger] in_chain(s.categories[category], i),
            ),
    ensures
        ({
            let e = s.categories[category];
            &&& k <= e.fallback@.len() && can_ever_be_placed(s, in_chain(e, k)) ==> s.serves(
                category,
            ) == Some(in_chain(e, k)) && (s.by_fallback(category) <==> in_chain(e, k)
                != e.primary@)
            &&& k == e.fallback@.len() + 1 ==> s.serves(category) is None && !s.by_fallback(category)
            &&& s.meant_for(category) == e.primary@
        }),
{
    let e = s.categories[category];
    let c = capability_registry::candidates_of(s.categories, category);
    assert forall|i: int| 0 <= i < c.len() implies #[trigger] c[i] == in_chain(e, i) by {}
    assert forall|i: int| 0 <= i < k implies !(s.models.dom().contains(#[trigger] c[i])
        && s.reachable(c[i])) by {
        lemma_reachable(s, c[i]);
        assert(!can_ever_be_placed(s, in_chain(e, i)));
    }
    if k < c.len() {
        lemma_reachable(s, c[k]);
    }
    lemma_winner_is(s, c, 0, k);
}

proof fn lemma_reachable(s: SchedulerView, model: Seq<char>)
    requires
        s.wf(),
    ensures
        s.models.dom().contains(model) ==> (s.reachable(model) <==> can_ever_be_placed(s, model)),
{
    if s.models.dom().contains(model) && s.models[model].always_loaded {
        assert(s.names.contains(model));
        resource_registry::lemma_resident_counted(s.models, s.names, s.names.index_of(model));
    }
}

proof fn lemma_winner_is(s: SchedulerView, candidates: Seq<Seq<char>>, from: int, k: int)
    requires
        0 <= from <= k <= candidates.len(),
        forall|i: int|
            from <= i < k ==> !(s.models.dom().contains(#[trigger] candidates[i]) && s.reachable(
                candidates[i],
            )),
    ensures
        k == candidates.len() ==> s.winner(candidates, from) is None,
        k < candidates.len() && s.models.dom().contains(candidates[k]) && s.reachable(candidates[k])
            ==> s.winner(candidates, from) == Some(candidates[k]),
    decreases k - from,
{
    if from < k {
        lemma_winner_is(s, candidates, from + 1, k);
    }
}

/// The report lists exactly the models of the registry that can never be placed, each
/// once and with its size, and none before a larger one.
pub proof fn law_the_report_lists_what_can_never_be_placed(
    s: SchedulerView,
    entries: Seq<(String, u32)>,
    model: Seq<char>,
    i: int,
    j: int,
)
    requires
        s.wf(),
        lists_unreachable(s, entries, s.names),
    ensures
        s.models.dom().contains(model) ==> (!can_ever_be_placed(s, model) <==> exists|k: int|
            0 <= k < entries.len() && (#[trigger] entries[k]).0@ == model),
        0 <= i < entries.len() ==> s.models.dom().contains(entries[i].0@) && entries[i].1
            == s.models[entries[i].0@].vram_mb,
        0 <= i < j < entries.len() ==> entries[i].1 >= entries[j].1 && entries[i].0@ != entries[j].0@,
{
    if s.models.dom().contains(model) {
        assert(s.names.contains(model));
        lemma_reachable(s, model);
        if exists|k: int| 0 <= k < entries.len() && (#[trigger] entries[k]).0@ == model {
            let k = choose|k: int| 0 <= k < entries.len() && (#[trigger] entries[k]).0@ == model;
            assert(!s.reachable(entries[k].0@));
        }
    }
    if 0 <= i < entries.len() {
        assert(s.names.contains(entries[i].0@));
    }
}

/// The lines of the report say what is wrong, as warnings: which model cannot be
/// placed, with its size, the memory of the residents and the budget in this order; which
/// category is empty; which model serves a category, and which one was meant to.
pub proof fn law_the_report_warns(
    report: ReachabilityReport,
    e: (String, u32),
    c: String,
    f: (String, String, String),
)
    ensures
        report.unreachable_line(e).warning,
        report.unreachable_line(e).line == "== достижимость == модель '"@ + e.0@
            + "' НЕДОСТИЖИМА: "@ + text::decimal(e.1 as nat) + " MB + "@ + text::decimal(
            report.resident_mb as nat,
        ) + " MB резидентов > "@ + text::decimal(report.budget_mb as nat) + " MB бюджета"@,
        ReachabilityReport::empty_line(c).warning,
        text::occurs("'"@ + c@ + "' ПУСТА"@, ReachabilityReport::empty_line(c).line),
        ReachabilityReport::fallback_line(f).warning,
        text::occurs(
            "'"@ + f.0@ + "' обслуживается fallback'ом '"@ + f.2@ + "', а не назначенной '"@ + f.1@
                + "'"@,
            ReachabilityReport::fallback_line(f).line,
        ),
        !report.budget_line().warning,
        report.unreachable@.len() > 0 ==> report.model_lines().len() == report.unreachable@.len()
            && forall|i: int|
            0 <= i < report.model_lines().len() ==> (#[trigger] report.model_lines()[i]).warning,
        report.unreachable@.len() == 0 ==> report.model_lines().len() == 1
            && !report.model_lines()[0].warning,
        report.closing_lines().len() == 1 <==> report.empty_categories@.len() == 0
            && report.served_by_fallback@.len() == 0,
        report.closing_lines().len() == 1 ==> !report.closing_lines()[0].warning,
{
    reveal_strlit("== достижимость == категория '");
    reveal_strlit("'");
    reveal_strlit("' ПУСТА: ни один кандидат цепочки не проходит, задачи в ней будут падать");
    reveal_strlit("' ПУСТА");
    let head = "== достижимость == категория '"@;
    let at = head.len() - 1;
    let empty = ReachabilityReport::empty_line(c).line;
    let x = "'"@ + c@ + "' ПУСТА"@;
    assert(x =~= empty.skip(at).subrange(0, x.len() as int));
    assert(x.is_prefix_of(empty.skip(at)));
    let other = ReachabilityReport::fallback_line(f).line;
    let y = "'"@ + f.0@ + "' обслуживается fallback'ом '"@ + f.2@ + "', а не назначенной '"@ + f.1@
        + "'"@;
    assert(y =~= other.skip(at).subrange(0, y.len() as int));
    assert(y.is_prefix_of(other.skip(at)));
}

/// The generations that run are the sum over the busy models, and none runs exactly if
/// no model is busy.
pub proof fn law_generations_are_those_of_the_busy_models(s: SchedulerView, model: Seq<char>)
    requires
        s.wf(),
    ensures
        s.generations() == 0 <==> s.busy.dom() == Set::<Seq<char>>::empty(),
        s.busy.dom().contains(model) ==> s.generations() >= s.busy[model],
{
    if s.generations() == 0 {
        assert forall|m: Seq<char>| !s.busy.dom().contains(m) by {
            if s.busy.dom().contains(m) {
                assert(s.busy_order.contains(m));
                lemma_busy_within_running(s.busy, s.busy_order, m);
                assert(s.busy[m] >= 1);
            }
        }
        assert(s.busy.dom() =~= Set::<Seq<char>>::empty());
    }
    if s.busy.dom() == Set::<Seq<char>>::empty() && s.busy_order.len() > 0 {
        assert(s.busy_order.contains(s.busy_order[0]));
    }
    if s.busy.dom().contains(model) {
        assert(s.busy_order.contains(model));
        lemma_busy_within_running(s.busy, s.busy_order, model);
    }
}

/// A refusal names what was asked for.
pub proof fn law_a_refusal_names_its_subject(s: SchedulerView, name: Seq<char>, now: Timestamp)
    requires
        s.wf(),
    ensures
        text::occurs(name, SubjectView::Category(name).no_model()),
        text::occurs(name, SubjectView::Model(name).no_model()),
        !s.models.dom().contains(name) ==> (s.asked_by_name(name, now).1 matches EffectView::Refused(
            why,
        ) && text::occurs(name, why)),
        s.generations() < 2 && !s.categories.dom().contains(name) && (s.generations() > 0
            || s.placement is None) ==> (s.asked(name, true, now).1 matches EffectView::Refused(why)
            && text::occurs(name, why)),
        s.generations() >= 2 ==> (s.asked(name, true, now).1 matches EffectView::Refused(why)
            && text::occurs(text::decimal(s.generations()), why)),
{
    text::lemma_occurs_between(
        "не удалось подобрать модель для категории '"@,
        name,
        "': не хватает VRAM у всех кандидатов или backend недоступен"@,
    );
    text::lemma_occurs_between("не удалось разместить модель '"@, name, "' в VRAM"@);
    text::lemma_occurs_between("модель '"@, name, "' отсутствует в Resource Registry"@);
    text::lemma_occurs_between(
        "система занята другой задачей, а подходящая для '"@,
        name,
        "' модель не загружена — повторите позже"@,
    );
    text::lemma_occurs_between("категория '"@, name, "' не найдена в Capability Registry"@);
    text::lemma_occurs_between(
        "система уже обслуживает "@,
        text::decimal(s.generations()),
        " задач(и) — предел 2, повторите позже"@,
    );
    let c = capability_registry::candidates_of(s.categories, name);
    if !s.categories.dom().contains(name) {
        lemma_first_loaded_is(s, c, 0, 0);
    }
}

/// While a placement is under way, a task of a category is refused where nothing runs,
/// and nothing changes.
pub proof fn law_a_placement_under_way_is_not_disturbed(
    s: SchedulerView,
    category: Seq<char>,
    allow_manual: bool,
    now: Timestamp,
)
    requires
        s.wf(),
        s.generations() == 0,
        s.placement is Some,
    ensures
        s.asked(category, allow_manual, now).0 == s,
        s.asked(category, allow_manual, now).1 is Refused,
{
}

/// A model that was loaded while the limit was reached in the meantime stays loaded, and
/// its request is refused: no generation begins.
pub proof fn law_the_limit_holds_after_a_load(s: SchedulerView, now: Timestamp)
    requires
        s.wf(),
        s.placement matches Some(p) && p.stage is Loading,
        s.generations() >= 2,
    ensures
        ({
            let search = s.placement->0.search;
            let m = search.candidates[search.position];
            let (after, effect) = s.after_load(true, now);
            &&& effect is Refused
            &&& after.loaded == s.loaded.insert(m, now)
            &&& after.busy == s.busy
            &&& after.placement is None
            &&& after.operation is None
        }),
{
}

/// A placement that is given up leaves what is loaded and what is busy as it is; when
/// everything is unloaded nothing is loaded any more, and no memory is taken.
pub proof fn law_giving_up_and_unloading(s: SchedulerView)
    ensures
        s.at_rest().placement is None,
        s.at_rest().operation is None,
        s.at_rest().loaded == s.loaded,
        s.at_rest().order == s.order,
        s.at_rest().busy == s.busy,
        s.at_rest().busy_order == s.busy_order,
        s.emptied().loaded.dom() == Set::<Seq<char>>::empty(),
        s.emptied().order.len() == 0,
        s.emptied().used_mb() == 0,
        s.emptied().busy == s.busy,
        s.emptied().models == s.models,
        s.emptied().categories == s.categories,
        s.emptied().budget_mb == s.budget_mb,
        s.emptied().placement == s.placement,
{
    assert(s.emptied().loaded.dom() =~= Set::<Seq<char>>::empty());
}

/// Of the candidates that were passed over each is told once, in its order, by its name
/// and why: that it is unknown, or how much memory it takes; where none was passed over
/// nothing is told.
pub proof fn law_passed_over_candidates_are_told(
    s: SchedulerView,
    candidates: Seq<Seq<char>>,
    from: int,
    to: int,
    i: int,
    rejected: Seq<Seq<char>>,
)
    requires
        0 <= from <= to <= candidates.len(),
    ensures
        s.rejections(candidates, from, to).len() == to - from,
        0 <= i < to - from ==> {
            let m = candidates[from + i];
            let told = s.rejections(candidates, from, to)[i];
            &&& s.models.dom().contains(m) ==> told == m + ": не помещается ("@ + text::decimal(
                s.models[m].vram_mb as nat,
            ) + " MB)"@
            &&& !s.models.dom().contains(m) ==> told == m + ": нет в Resource Registry"@
        },
        rejected.len() == 0 ==> rejected_text(rejected).len() == 0,
        rejected.len() > 0 ==> text::joined(rejected, "; "@).is_suffix_of(rejected_text(rejected)),
{
    if rejected.len() > 0 {
        let w = rejected_text(rejected);
        let all = text::joined(rejected, "; "@);
        assert(all =~= w.subrange(w.len() - all.len(), w.len() as int));
    }
}

/// A model fits exactly if what is taken and what it needs do not exceed the budget.
pub proof fn law_a_model_fits_within_the_budget(used: nat, needed: nat, budget: nat)
    ensures
        fits(used, needed, budget) <==> used + needed <= budget,
        fits(used, needed, used + needed),
        !fits(used, needed + 1, used + needed),
{
}

} // verus!
