//! What is shown of the models and of the scheduler's work.

use crate::clock;
use crate::clock::Timestamp;
use crate::control_center_api::ApiError;
use crate::resource_registry;
use crate::resource_registry::{PreferredDevice, ResourceEntry, Temperature};
use crate::scheduler;
use crate::scheduler::{OperationView, Scheduler, SchedulerView};
use crate::text;
use vstd::prelude::*;

verus! {

/// The word for where a model is placed.
pub open spec fn device_word(device: PreferredDevice) -> Seq<char> {
    match device {
        PreferredDevice::Gpu => "gpu"@,
        PreferredDevice::Cpu => "cpu"@,
        PreferredDevice::Hybrid => "hybrid"@,
    }
}

/// The word for where a model is placed.
pub fn preferred_device_str(device: PreferredDevice) -> (r: &'static str)
    ensures
        r@ == device_word(device),
{
    match device {
        PreferredDevice::Gpu => "gpu",
        PreferredDevice::Cpu => "cpu",
        PreferredDevice::Hybrid => "hybrid",
    }
}

/// What is shown of a model.
#[derive(Debug)]
pub struct ModelStatusDto {
    pub model: String,
    pub vram_mb: u32,
    pub ram_offload_mb: u32,
    pub always_loaded: bool,
    pub preferred_device: &'static str,
    pub loaded: bool,
    pub last_used: Option<Timestamp>,
    /// Takes effect when the model is loaded.
    pub context_length: Option<u32>,
    pub max_context_length: Option<u32>,
    /// Takes effect with the next request; the provider's default where there is
    /// none.
    pub temperature: Option<Temperature>,
}

impl ModelStatusDto {
    /// Whether this is what is to be shown of a model.
    pub open spec fn shows(&self, s: SchedulerView, model: Seq<char>) -> bool {
        let entry = s.models[model];
        &&& self.model@ == model
        &&& self.vram_mb == entry.vram_mb
        &&& self.ram_offload_mb == entry.ram_offload_mb
        &&& self.always_loaded == entry.always_loaded
        &&& self.preferred_device@ == device_word(entry.preferred_device)
        &&& self.loaded == s.loaded.dom().contains(model)
        &&& self.last_used == if s.loaded.dom().contains(model) {
            Some(s.loaded[model])
        } else {
            None
        }
        &&& self.context_length == entry.context_length
        &&& self.max_context_length == entry.max_context_length
        &&& self.temperature == resource_registry::temperature_in_force(
            s.models,
            s.overrides,
            model,
        )
    }
}

/// Shows every model of the registry, loaded or not.
pub fn list_models(scheduler: &Scheduler) -> (r: Vec<ModelStatusDto>)
    ensures
        r@.len() == scheduler@.names.len(),
        forall|i: int|
            0 <= i < r@.len() ==> (#[trigger] r@[i]).shows(scheduler@, scheduler@.names[i]),
{
    let registry = scheduler.resources();
    let entries = registry.all();
    let n: usize = entries.len();
    let mut out: Vec<ModelStatusDto> = Vec::new();
    let mut i: usize = 0;
    while i < n
        invariant
            i <= n,
            n == entries.keys().len(),
            entries.keys() == registry.names(),
            entries@ == registry@,
            registry@ == scheduler@.models,
            registry.names() == scheduler@.names,
            registry.overrides() == scheduler@.overrides,
            out@.len() == i,
            forall|k: int|
                0 <= k < i ==> (#[trigger] out@[k]).shows(scheduler@, scheduler@.names[k]),
        decreases n - i,
    {
        let name = entries.key_at(i);
        let entry = entries.value_at(i);
        let last_used = scheduler.last_used(name.as_str());
        out.push(
            ModelStatusDto {
                model: name.clone(),
                vram_mb: entry.vram_mb,
                ram_offload_mb: entry.ram_offload_mb,
                always_loaded: entry.always_loaded,
                preferred_device: preferred_device_str(entry.preferred_device),
                loaded: last_used.is_some(),
                last_used,
                context_length: entry.context_length,
                max_context_length: entry.max_context_length,
                temperature: registry.temperature_for(name.as_str()),
            },
        );
        i = i + 1;
    }
    out
}

/// What becomes of the registry file's text when somebody sets a temperature: the
/// new text, or why the request is refused. A number outside the range is the
/// fault of the request; it is looked at before anything else.
pub fn set_model_temperature(
    scheduler: &Scheduler,
    model: &str,
    value: Option<Temperature>,
    shown: &str,
    raw: &str,
) -> (r: Result<String, ApiError>)
    ensures
        match value {
            Some(t) if !t.in_range() => r matches Err(ApiError::BadRequest(m)) && m@
                == resource_registry::temperature_error(shown@),
            _ => {
                let lines = text::lines(raw@);
                let start = resource_registry::block_start(
                    lines,
                    resource_registry::header_of(model@),
                    0,
                );
                if !scheduler@.models.dom().contains(model@) {
                    r matches Err(ApiError::Internal(m)) && m@ == "модель '"@ + model@
                        + "' отсутствует в Resource Registry"@
                } else if start == lines.len() {
                    r matches Err(ApiError::Internal(m)) && m@
                        == resource_registry::no_block_error(model@)
                } else {
                    r matches Ok(t) && t@ == resource_registry::with_temperature(
                        raw@,
                        model@,
                        if value is Some {
                            Some(shown@)
                        } else {
                            None
                        },
                    )
                }
            },
        },
{
    match resource_registry::validate_temperature(value, shown) {
        Err(e) => {
            return Err(ApiError::BadRequest(e));
        },
        Ok(_) => {},
    }
    proof {
        resource_registry::lemma_block_start(
            text::lines(raw@),
            resource_registry::header_of(model@),
            0,
        );
    }
    match scheduler.resources().set_temperature(model, value, shown, raw) {
        Ok(t) => Ok(t),
        Err(e) => Err(ApiError::Internal(e)),
    }
}

/// What is shown of a loaded model.
#[derive(Debug)]
pub struct LoadedModelDto {
    pub model: String,
    pub last_used: Timestamp,
}

/// What is shown of a busy model.
#[derive(Debug)]
pub struct BusyModelDto {
    pub model: String,
    pub generations: usize,
}

/// What is shown of the operation under way.
#[derive(Debug)]
pub struct ActiveOperationDto {
    pub kind: String,
    pub model: String,
    pub reason: String,
    pub started_at: Timestamp,
    /// For how long it has been going on.
    pub elapsed_ms: i128,
}

/// What is shown of the scheduler.
#[derive(Debug)]
pub struct StatusDto {
    pub total_model_memory_mb: u32,
    pub used_model_memory_mb: u32,
    pub loaded_models: Vec<LoadedModelDto>,
    pub running_tasks: usize,
    pub max_concurrent_tasks: usize,
    pub busy_models: Vec<BusyModelDto>,
    pub active_operation: Option<ActiveOperationDto>,
}

impl ActiveOperationDto {
    /// Whether this is what is to be shown of an operation.
    pub open spec fn shows(&self, o: OperationView, now: Timestamp) -> bool {
        &&& self.kind@ == o.kind
        &&& self.model@ == o.model
        &&& self.reason@ == o.reason
        &&& self.started_at == o.started_at
        &&& self.elapsed_ms == clock::milliseconds(o.started_at, now)
    }
}

impl StatusDto {
    /// Whether the loaded models are shown, in the order of their loading.
    pub open spec fn shows_loaded(&self, s: SchedulerView) -> bool {
        &&& self.loaded_models@.len() == s.order.len()
        &&& forall|i: int|
            0 <= i < s.order.len() ==> (#[trigger] self.loaded_models@[i]).model@ == s.order[i]
                && self.loaded_models@[i].last_used == s.loaded[s.order[i]]
    }

    /// Whether the busy models are shown, each once and in the order of their
    /// names.
    pub open spec fn shows_busy(&self, s: SchedulerView) -> bool {
        &&& text::sorted(self.busy_models@.map_values(|b: BusyModelDto| b.model@))
        &&& forall|i: int|
            0 <= i < self.busy_models@.len() ==> s.busy.dom().contains(
                (#[trigger] self.busy_models@[i]).model@,
            ) && s.busy[self.busy_models@[i].model@] == self.busy_models@[i].generations
        &&& forall|m: Seq<char>| #[trigger]
            s.busy.dom().contains(m) ==> self.names_busy(m)
    }

    /// Whether a model is among those shown as busy.
    pub open spec fn names_busy(&self, model: Seq<char>) -> bool {
        exists|i: int|
            0 <= i < self.busy_models@.len() && (#[trigger] self.busy_models@[i]).model@ == model
    }
}

/// Shows how the scheduler stands.
pub fn status(scheduler: &Scheduler, now: Timestamp) -> (r: StatusDto)
    requires
        scheduler@.wf(),
    ensures
        r.total_model_memory_mb == scheduler@.budget_mb,
        r.used_model_memory_mb == scheduler@.used_mb(),
        r.shows_loaded(scheduler@),
        r.running_tasks == scheduler@.generations(),
        r.max_concurrent_tasks == scheduler::MAX_CONCURRENT_TASKS,
        r.shows_busy(scheduler@),
        match r.active_operation {
            Some(o) => scheduler@.operation is Some && o.shows(scheduler@.operation->0, now),
            None => scheduler@.operation is None,
        },
{
    let snapshot = scheduler.snapshot();
    let ghost order = snapshot@.map_values(|e: (String, Timestamp)| e.0@);
    let mut loaded_models: Vec<LoadedModelDto> = Vec::new();
    let mut i: usize = 0;
    while i < snapshot.len()
        invariant
            i <= snapshot@.len(),
            loaded_models@.len() == i,
            forall|k: int|
                0 <= k < i ==> (#[trigger] loaded_models@[k]).model@ == snapshot@[k].0@
                    && loaded_models@[k].last_used == snapshot@[k].1,
        decreases snapshot@.len() - i,
    {
        loaded_models.push(
            LoadedModelDto { model: snapshot[i].0.clone(), last_used: snapshot[i].1 },
        );
        i = i + 1;
    }
    let busy = scheduler.busy_models();
    let mut busy_models: Vec<BusyModelDto> = Vec::new();
    let mut k: usize = 0;
    while k < busy.len()
        invariant
            k <= busy@.len(),
            busy_models@.len() == k,
            forall|j: int|
                0 <= j < k ==> (#[trigger] busy_models@[j]).model@ == busy@[j].0@
                    && busy_models@[j].generations == busy@[j].1,
        decreases busy@.len() - k,
    {
        busy_models.push(BusyModelDto { model: busy[k].0.clone(), generations: busy[k].1 });
        k = k + 1;
    }
    let active_operation = match scheduler.active_operation() {
        Some(o) => Some(
            ActiveOperationDto {
                kind: o.kind.to_owned(),
                model: o.model.clone(),
                reason: o.reason.clone(),
                started_at: o.started_at,
                elapsed_ms: clock::elapsed_ms(o.started_at, now),
            },
        ),
        None => None,
    };
    let r = StatusDto {
        total_model_memory_mb: scheduler.total_model_memory_mb(),
        used_model_memory_mb: scheduler.used_model_memory_mb(),
        loaded_models,
        running_tasks: scheduler.running_generations(),
        max_concurrent_tasks: scheduler::MAX_CONCURRENT_TASKS,
        busy_models,
        active_operation,
    };
    proof {
        assert(r.shows_loaded(scheduler@)) by {
            assert forall|j: int| 0 <= j < order.len() implies (
            #[trigger] r.loaded_models@[j]).model@ == order[j] && r.loaded_models@[j].last_used
                == scheduler@.loaded[order[j]] by {
                assert(order[j] == snapshot@[j].0@);
            }
        }
        assert(r.busy_models@.map_values(|b: BusyModelDto| b.model@) =~= busy@.map_values(
            |e: (String, usize)| e.0@,
        ));
        assert forall|m: Seq<char>| #[trigger]
            scheduler@.busy.dom().contains(m) implies r.names_busy(m) by {
            let j = choose|j: int| 0 <= j < busy@.len() && (#[trigger] busy@[j]).0@ == m;
            assert(r.busy_models@[j].model@ == m);
        }
    }
    r
}

/// What is shown of a model is what the registry and the scheduler know of it: its
/// sizes, whether it is to stay, whether it is loaded and when it was last used, and the
/// temperature that was set last, else that of the registry.
pub proof fn law_a_model_is_shown_as_it_is(d: ModelStatusDto, s: SchedulerView, model: Seq<char>)
    requires
        d.shows(s, model),
    ensures
        d.model@ == model,
        d.vram_mb == s.models[model].vram_mb,
        d.ram_offload_mb == s.models[model].ram_offload_mb,
        d.always_loaded == s.models[model].always_loaded,
        d.context_length == s.models[model].context_length,
        d.max_context_length == s.models[model].max_context_length,
        d.loaded <==> s.loaded.dom().contains(model),
        d.last_used is Some <==> s.loaded.dom().contains(model),
        d.last_used matches Some(t) ==> t == s.loaded[model],
        s.overrides.dom().contains(model) ==> d.temperature == s.overrides[model],
        !s.overrides.dom().contains(model) && s.models.dom().contains(model) ==> d.temperature
            == s.models[model].temperature,
        s.models[model].preferred_device == PreferredDevice::Gpu ==> d.preferred_device@ == "gpu"@,
        s.models[model].preferred_device == PreferredDevice::Cpu ==> d.preferred_device@ == "cpu"@,
        s.models[model].preferred_device == PreferredDevice::Hybrid ==> d.preferred_device@
            == "hybrid"@,
{
}

/// The loaded models are shown in the order of their loading, each with its last use,
/// and the busy ones, all of them and no others, with the number of their generations.
pub proof fn law_the_status_shows_what_is_loaded_and_busy(
    d: StatusDto,
    s: SchedulerView,
    i: int,
    model: Seq<char>,
)
    requires
        d.shows_loaded(s),
        d.shows_busy(s),
    ensures
        d.loaded_models@.len() == s.order.len(),
        0 <= i < s.order.len() ==> d.loaded_models@[i].model@ == s.order[i]
            && d.loaded_models@[i].last_used == s.loaded[s.order[i]],
        s.busy.dom().contains(model) <==> exists|k: int|
            0 <= k < d.busy_models@.len() && (#[trigger] d.busy_models@[k]).model@ == model,
        0 <= i < d.busy_models@.len() ==> d.busy_models@[i].generations
            == s.busy[d.busy_models@[i].model@],
        0 <= i < d.busy_models@.len() - 1 ==> text::precedes(
            d.busy_models@[i].model@,
            d.busy_models@[i + 1].model@,
        ),
{
    if s.busy.dom().contains(model) {
        assert(d.names_busy(model));
    }
    let names = d.busy_models@.map_values(|b: BusyModelDto| b.model@);
    if 0 <= i < d.busy_models@.len() - 1 {
        assert(text::precedes(names[i], names[i + 1]));
    }
}

/// What is being done is shown with what it is done to, what for, and for how many
/// whole milliseconds it has been going on.
pub proof fn law_what_is_done_is_shown(d: ActiveOperationDto, o: OperationView, now: Timestamp)
    requires
        d.shows(o, now),
    ensures
        d.kind@ == o.kind,
        d.model@ == o.model,
        d.reason@ == o.reason,
        d.started_at == o.started_at,
        d.elapsed_ms == clock::milliseconds(o.started_at, now),
{
}

} // verus!
