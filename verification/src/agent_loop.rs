//! The rounds between a model and its tools.
//!
//! A model is asked; where it asks for tool calls, they are executed and their
//! results handed to it, until it answers with a text. [`AgentLoop`] decides what
//! comes next. Asking the model and calling the tools is done around it: each of
//! its functions says what to do, and the next one takes what came of it.

use crate::clock::Timestamp;
use crate::control_center_api;
use crate::json;
use crate::json::JsonShape;
use crate::model_backend;
use crate::model_backend::{
    GenerateRequest, GenerateResponse, Message, MessageView, ResponseView, Role, ToolCall,
    ToolCallView, ToolSpec,
};
use crate::router::Category;
use crate::task_store::{TaskStatus, TaskStore, TaskView};
use crate::text;
use crate::tool_gate;
use crate::tool_gate::{Approval, ApprovedToolCall, Decision, Outcome};
use vstd::prelude::*;

verus! {

/// How often a model is asked in one go.
pub const MAX_TOOL_ITERATIONS: u64 = 8;

/// Where the tool server is described.
pub const MCP_CONFIG_PATH: &'static str = "config/mcp.yaml";

/// The beginning of a result that says that a tool failed.
pub const TOOL_ERROR: &'static str = "ОШИБКА ИНСТРУМЕНТА";

/// How the rounds ended.
pub enum LoopOutcome {
    /// The model answered with a text.
    Answer(String),
    /// Somebody has to decide on a call. The task is marked as waiting already.
    AwaitingHuman,
}

/// What to do next.
pub enum AgentAction {
    /// Ask the model.
    Generate,
    /// Call a tool. The arguments are the text of a JSON object; without them the
    /// tool is called without arguments.
    Call { name: String, arguments: Option<String> },
    /// The rounds are over.
    Finished(LoopOutcome),
    /// The rounds failed, for this reason.
    Failed(String),
}

/// What to do next, by its characters.
#[verifier::ext_equal]
pub enum ActionView {
    Generate,
    Call { name: Seq<char>, arguments: Option<Seq<char>> },
    Answer(Seq<char>),
    AwaitingHuman,
    Failed(Seq<char>),
}

impl View for AgentAction {
    type V = ActionView;

    open spec fn view(&self) -> ActionView {
        match self {
            AgentAction::Generate => ActionView::Generate,
            AgentAction::Call { name, arguments } => ActionView::Call {
                name: name@,
                arguments: text::opt_text(*arguments),
            },
            AgentAction::Finished(LoopOutcome::Answer(t)) => ActionView::Answer(t@),
            AgentAction::Finished(LoopOutcome::AwaitingHuman) => ActionView::AwaitingHuman,
            AgentAction::Failed(reason) => ActionView::Failed(reason@),
        }
    }
}

/// A call under execution and who permitted it.
#[verifier::ext_equal]
pub struct Permitted {
    pub call: ToolCallView,
    pub by: Approval,
}

/// Everything that the rounds touch.
#[verifier::ext_equal]
pub struct LoopState {
    /// What the model is told.
    pub messages: Seq<MessageView>,
    /// How often the model was asked; 0 before the first time.
    pub step: int,
    /// The call under execution.
    pub current: Option<Permitted>,
    /// The calls still to be decided on.
    pub queue: Seq<ToolCallView>,
    pub tasks: Map<u128, TaskView>,
    pub journal: Seq<char>,
}

/// What stays the same over all rounds.
#[verifier::ext_equal]
pub struct LoopSetting {
    pub id: u128,
    /// The tools that may be called without asking.
    pub auto_approve: Seq<Seq<char>>,
    /// The tool server, if there is one.
    pub server: Option<Seq<char>>,
    /// The model that is asked.
    pub model: Seq<char>,
}

impl LoopSetting {
    /// The server's name as it is shown.
    pub open spec fn server_name(self) -> Seq<char> {
        match self.server {
            Some(name) => name,
            None => "-"@,
        }
    }
}

/// What a call's arguments come to.
#[verifier::ext_equal]
pub enum ArgumentsView {
    /// The tool can be called.
    Usable(Option<Seq<char>>),
    /// They are JSON, but no object: the tool refuses them, for this reason.
    NoObject(Seq<char>),
    /// They are not JSON: this is the result.
    Broken(Seq<char>),
}

/// What a call's arguments come to. Nothing but white space stands for none.
/// `read` is what the arguments are as JSON.
pub open spec fn arguments_of(
    call: ToolCallView,
    read: Result<(JsonShape, Seq<char>), Seq<char>>,
) -> ArgumentsView {
    if text::is_blank(call.arguments) {
        ArgumentsView::Usable(None)
    } else {
        match read {
            Err(e) => ArgumentsView::Broken(
                "ОШИБКА ИНСТРУМЕНТА: аргументы не разобрались как JSON ("@ + e + "); пришло: "@
                    + call.arguments,
            ),
            Ok((JsonShape::Object, _)) => ArgumentsView::Usable(Some(call.arguments)),
            Ok((JsonShape::Null, _)) => ArgumentsView::Usable(None),
            Ok((_, shown)) => ArgumentsView::NoObject(
                "аргументы инструмента '"@ + call.name + "' не объект JSON, а "@ + shown,
            ),
        }
    }
}

/// What a call's arguments come to.
pub enum CallArguments {
    Usable(Option<String>),
    NoObject(String),
    Broken(String),
}

impl View for CallArguments {
    type V = ArgumentsView;

    open spec fn view(&self) -> ArgumentsView {
        match self {
            CallArguments::Usable(a) => ArgumentsView::Usable(text::opt_text(*a)),
            CallArguments::NoObject(reason) => ArgumentsView::NoObject(reason@),
            CallArguments::Broken(result) => ArgumentsView::Broken(result@),
        }
    }
}

/// Finds out what a call's arguments come to. `read` is what they are as JSON.
pub fn check_arguments(call: &ToolCall, read: Result<(JsonShape, String), String>) -> (r:
    CallArguments)
    ensures
        r@ == arguments_of(call@, json::reading(read)),
{
    if text::blank(call.arguments.as_str()) {
        return CallArguments::Usable(None);
    }
    match read {
        Err(e) => {
            let mut result = String::from_str(
                "ОШИБКА ИНСТРУМЕНТА: аргументы не разобрались как JSON (",
            );
            result.append(e.as_str());
            result.append("); пришло: ");
            result.append(call.arguments.as_str());
            CallArguments::Broken(result)
        },
        Ok((JsonShape::Object, _)) => CallArguments::Usable(Some(call.arguments.clone())),
        Ok((JsonShape::Null, _)) => CallArguments::Usable(None),
        Ok((_, shown)) => {
            let mut reason = String::from_str("аргументы инструмента '");
            reason.append(call.name.as_str());
            reason.append("' не объект JSON, а ");
            reason.append(shown.as_str());
            CallArguments::NoObject(reason)
        },
    }
}

/// The note that a call is about to be executed.
pub open spec fn call_note(step: int, call: ToolCallView, by: Approval) -> Seq<char> {
    "шаг "@ + text::decimal(step as nat) + ": вызываю '"@ + call.name + "' (разрешено: "@ + by.word()
        + ") с аргументами "@ + call.arguments
}

/// The text that the model gets for what a tool gave back.
pub open spec fn result_text(returned: Result<Seq<char>, Seq<char>>) -> Seq<char> {
    match returned {
        Ok(t) => t,
        Err(e) => "ОШИБКА ИНСТРУМЕНТА: "@ + e,
    }
}

/// Whether a call succeeded, for the journal.
pub open spec fn result_outcome(returned: Result<Seq<char>, Seq<char>>) -> Outcome {
    match returned {
        Ok(t) => if TOOL_ERROR@.is_prefix_of(t) {
            Outcome::Failed
        } else {
            Outcome::Executed
        },
        Err(_) => Outcome::Failed,
    }
}

/// The view of what a tool gave back.
pub open spec fn returned_view(r: Result<String, String>) -> Result<Seq<char>, Seq<char>> {
    match r {
        Ok(t) => Ok(t@),
        Err(e) => Err(e@),
    }
}

/// What happens to a call once it was executed: a line in the journal, an entry
/// in the task, a message for the model.
pub open spec fn settled(
    s: LoopState,
    setting: LoopSetting,
    p: Permitted,
    returned: Result<Seq<char>, Seq<char>>,
    now: Timestamp,
) -> LoopState {
    let result = result_text(returned);
    LoopState {
        messages: s.messages.push(model_backend::result_message(p.call.id, result)),
        current: None,
        tasks: control_center_api::with_entry(
            s.tasks,
            setting.id,
            control_center_api::call_entry("tool"@, result, p.call.id, now),
            now,
        ),
        journal: s.journal + control_center_api::journal_line(
            setting.id,
            setting.server_name(),
            p.call,
            Some(p.by),
            result_outcome(returned),
            result,
            now,
        ),
        ..s
    }
}

/// A permitted call is noted; then the tool is to be called, or, where the
/// arguments are of no use, the call is over with an error for its result. In the
/// second case there is nothing to do yet. Arguments that are not JSON never reach
/// the tool server: the error is noted and told to the model, and as no call was
/// made there is neither a line in the journal nor a result in the task.
pub open spec fn executed(
    s: LoopState,
    setting: LoopSetting,
    p: Permitted,
    now: Timestamp,
) -> (LoopState, Option<ActionView>) {
    let noted = LoopState {
        tasks: control_center_api::noted(
            s.tasks,
            setting.id,
            call_note(s.step, p.call, p.by),
            now,
        ),
        ..s
    };
    match arguments_of(p.call, json::json_reading(p.call.arguments)) {
        ArgumentsView::Usable(arguments) => (
            LoopState { current: Some(p), ..noted },
            Some(ActionView::Call { name: p.call.name, arguments }),
        ),
        ArgumentsView::NoObject(reason) => (settled(noted, setting, p, Err(reason), now), None),
        ArgumentsView::Broken(result) => (
            LoopState {
                messages: noted.messages.push(
                    model_backend::result_message(p.call.id, result),
                ),
                tasks: control_center_api::noted(noted.tasks, setting.id, result, now),
                ..noted
            },
            None,
        ),
    }
}

/// Why the rounds end when the model was asked too often.
pub open spec fn too_many_steps(model: Seq<char>) -> Seq<char> {
    "модель не завершила задачу за 8 шагов вызова инструментов на модели '"@ + model
        + "' — цикл прерван, чтобы не крутиться бесконечно"@
}

/// The calls still to be decided on are taken one after the other, up to the
/// first that has to wait for the tool or for somebody's decision. When none is
/// left the model is asked again, if it was not asked too often.
pub open spec fn advanced(s: LoopState, setting: LoopSetting, now: Timestamp) -> (
    LoopState,
    ActionView,
)
    decreases s.queue.len(),
{
    if s.queue.len() == 0 {
        if s.step >= MAX_TOOL_ITERATIONS {
            (s, ActionView::Failed(too_many_steps(setting.model)))
        } else {
            (LoopState { step: s.step + 1, ..s }, ActionView::Generate)
        }
    } else {
        let call = s.queue[0];
        let rest = LoopState { queue: s.queue.skip(1), ..s };
        if tool_gate::listed(setting.auto_approve, call.name) {
            let (next, action) = executed(
                rest,
                setting,
                Permitted { call, by: Approval::Allowlist },
                now,
            );
            match action {
                Some(a) => (next, a),
                None => advanced(
                    LoopState { queue: rest.queue, ..next },
                    setting,
                    now,
                ),
            }
        } else {
            (
                LoopState {
                    tasks: control_center_api::parked(
                        s.tasks,
                        setting.id,
                        setting.server_name(),
                        call,
                        now,
                    ),
                    ..rest
                },
                ActionView::AwaitingHuman,
            )
        }
    }
}

/// The rounds begin. Where a call of the task was permitted and not executed, it
/// is executed first, for which a server is needed.
pub open spec fn started(s: LoopState, setting: LoopSetting, now: Timestamp) -> (
    LoopState,
    ActionView,
) {
    let context = if s.tasks.dom().contains(setting.id) {
        s.tasks[setting.id].context
    } else {
        Seq::empty()
    };
    match control_center_api::approved_call(context) {
        None => advanced(s, setting, now),
        Some(call) => if setting.server is None {
            (s, ActionView::Failed("вызов подтверждён, но MCP-сервер недоступен"@))
        } else {
            let (next, action) = executed(s, setting, Permitted { call, by: Approval::Human }, now);
            match action {
                Some(a) => (next, a),
                None => advanced(next, setting, now),
            }
        },
    }
}

/// The calls that a model asked for are entered into the task.
pub open spec fn requested(
    tasks: Map<u128, TaskView>,
    id: u128,
    asked: Seq<ToolCallView>,
    now: Timestamp,
) -> Map<u128, TaskView>
    decreases asked.len(),
{
    if asked.len() == 0 {
        tasks
    } else {
        control_center_api::with_entry(
            requested(tasks, id, asked.drop_last(), now),
            id,
            control_center_api::request_entry(asked.last(), now),
            now,
        )
    }
}

/// The model answered. A text is the answer. Tool calls are entered, first all of
/// them, and then taken one after the other, for which a server is needed.
pub open spec fn answered(
    s: LoopState,
    setting: LoopSetting,
    response: ResponseView,
    now: Timestamp,
) -> (LoopState, ActionView) {
    match response {
        ResponseView::Text(t) => (s, ActionView::Answer(t)),
        ResponseView::ToolCalls(asked) => if setting.server is None {
            (
                s,
                ActionView::Failed(
                    "модель запросила вызов инструмента, но MCP-сервер недоступен"@,
                ),
            )
        } else {
            advanced(
                LoopState {
                    messages: s.messages.push(model_backend::calls_message(asked)),
                    current: None,
                    queue: asked,
                    tasks: requested(s.tasks, setting.id, asked, now),
                    ..s
                },
                setting,
                now,
            )
        },
    }
}

/// The tool gave something back: the call under execution is settled, and the
/// next one taken.
pub open spec fn returned(
    s: LoopState,
    setting: LoopSetting,
    result: Result<Seq<char>, Seq<char>>,
    now: Timestamp,
) -> (LoopState, ActionView) {
    match s.current {
        Some(p) => advanced(settled(s, setting, p, result, now), setting, now),
        None => advanced(s, setting, now),
    }
}

/// Where the rounds stand.
pub struct AgentLoop {
    id: u128,
    auto_approve: Vec<String>,
    server: Option<String>,
    model: String,
    messages: Vec<Message>,
    step: u64,
    current: Option<ApprovedToolCall>,
    /// The calls that the model asked for last, and how many of them were decided
    /// on.
    queue: Vec<ToolCall>,
    taken: usize,
}

impl AgentLoop {
    /// What stays the same over all rounds.
    pub closed spec fn setting(&self) -> LoopSetting {
        LoopSetting {
            id: self.id,
            auto_approve: text::texts(self.auto_approve@),
            server: text::opt_text(self.server),
            model: self.model@,
        }
    }

    /// Where the rounds stand, over tasks and a journal.
    pub closed spec fn state(&self, tasks: Map<u128, TaskView>, journal: Seq<char>) -> LoopState {
        LoopState {
            messages: model_backend::messages(self.messages@),
            step: self.step as int,
            current: match self.current {
                Some(a) => Some(Permitted { call: a.permitted(), by: a.by() }),
                None => None,
            },
            queue: model_backend::calls(self.queue@).skip(self.taken as int),
            tasks,
            journal,
        }
    }

    #[verifier::type_invariant]
    spec fn within(self) -> bool {
        &&& self.taken <= self.queue@.len()
        &&& self.step <= MAX_TOOL_ITERATIONS
    }

    /// Begins the rounds for a task, with what the model is to be told.
    pub fn start(
        store: &mut TaskStore,
        journal: &mut String,
        id: u128,
        messages: Vec<Message>,
        auto_approve: Vec<String>,
        server: Option<String>,
        model: String,
        now: Timestamp,
    ) -> (r: (AgentLoop, AgentAction))
        ensures
            r.0.setting() == (LoopSetting {
                id,
                auto_approve: text::texts(auto_approve@),
                server: text::opt_text(server),
                model: model@,
            }),
            (r.0.state(final(store)@, final(journal)@), r.1@) == started(
                LoopState {
                    messages: model_backend::messages(messages@),
                    step: 0,
                    current: None,
                    queue: Seq::empty(),
                    tasks: old(store)@,
                    journal: old(journal)@,
                },
                r.0.setting(),
                now,
            ),
    {
        let mut agent = AgentLoop {
            id,
            auto_approve,
            server,
            model,
            messages,
            step: 0,
            current: None,
            queue: Vec::new(),
            taken: 0,
        };
        let ghost first = agent.state(store@, journal@);
        assert(first.queue =~= Seq::<ToolCallView>::empty());
        let approved = match store.get(id) {
            Some(task) => control_center_api::approved_pending_call(&task.context),
            None => {
                proof {
                    assert(control_center_api::last_request(
                        Seq::<crate::task_store::EntryView>::empty(),
                    ) == -1);
                }
                None
            },
        };
        match approved {
            None => {
                let action = agent.advance(store, journal, now);
                (agent, action)
            },
            Some(call) => {
                if agent.server.is_none() {
                    return (
                        agent,
                        AgentAction::Failed(
                            String::from_str("вызов подтверждён, но MCP-сервер недоступен"),
                        ),
                    );
                }
                let permitted = tool_gate::approve_by_human(call);
                let action = match agent.execute(store, journal, permitted, now) {
                    Some(action) => action,
                    None => agent.advance(store, journal, now),
                };
                (agent, action)
            },
        }
    }

    /// The messages that the model is to be asked with, together with the tools on
    /// offer.
    pub fn request(&self, tools: Vec<ToolSpec>) -> (r: GenerateRequest)
        ensures
            forall|tasks: Map<u128, TaskView>, journal: Seq<char>|
                model_backend::messages(r.messages@) == #[trigger] self.state(
                    tasks,
                    journal,
                ).messages,
            r.tools == tools,
            r.temperature is None,
    {
        GenerateRequest {
            messages: model_backend::copy_messages(&self.messages),
            tools,
            temperature: None,
        }
    }

    /// Takes what the model answered.
    pub fn generated(
        &mut self,
        store: &mut TaskStore,
        journal: &mut String,
        response: GenerateResponse,
        now: Timestamp,
    ) -> (r: AgentAction)
        ensures
            final(self).setting() == old(self).setting(),
            (final(self).state(final(store)@, final(journal)@), r@) == answered(
                old(self).state(old(store)@, old(journal)@),
                old(self).setting(),
                response@,
                now,
            ),
    {
        proof {
            use_type_invariant(&*self);
        }
        let asked = match response {
            GenerateResponse::Text(t) => {
                return AgentAction::Finished(LoopOutcome::Answer(t));
            },
            GenerateResponse::ToolCalls(asked) => asked,
        };
        if self.server.is_none() {
            return AgentAction::Failed(
                String::from_str(
                    "модель запросила вызов инструмента, но MCP-сервер недоступен",
                ),
            );
        }
        let ghost before = self.state(store@, journal@);
        let ghost before_setting = self.setting();
        let ghost views = model_backend::calls(asked@);
        let ghost tasks = store@;
        let mut i: usize = 0;
        assert(views.take(0) =~= Seq::<ToolCallView>::empty());
        while i < asked.len()
            invariant
                i <= asked@.len(),
                views == model_backend::calls(asked@),
                store@ == requested(tasks, self.id, views.take(i as int), now),
            decreases asked@.len() - i,
        {
            assert(views[i as int] == asked@[i as int]@);
            control_center_api::record_tool_request(store, self.id, &asked[i], now);
            assert(views.take(i + 1).drop_last() =~= views.take(i as int));
            i = i + 1;
        }
        assert(views.take(views.len() as int) =~= views);
        let copied = model_backend::copy_calls(&asked);
        let message = Message::assistant_tool_calls(copied);
        self.push_message(message);
        proof {
            use_type_invariant(&*self);
            assert(self.state(store@, journal@).messages == before.messages.push(message@));
        }
        self.current = None;
        self.taken = 0;
        self.queue = asked;
        assert(views.skip(0) =~= views);
        assert(self.state(store@, journal@) =~= LoopState {
            messages: before.messages.push(model_backend::calls_message(views)),
            current: None,
            queue: views,
            tasks: requested(tasks, before_setting.id, views, now),
            ..before
        });
        self.advance(store, journal, now)
    }

    /// Takes what the tool gave back, or why it could not be called.
    pub fn tool_returned(
        &mut self,
        store: &mut TaskStore,
        journal: &mut String,
        result: Result<String, String>,
        now: Timestamp,
    ) -> (r: AgentAction)
        ensures
            final(self).setting() == old(self).setting(),
            (final(self).state(final(store)@, final(journal)@), r@) == returned(
                old(self).state(old(store)@, old(journal)@),
                old(self).setting(),
                returned_view(result),
                now,
            ),
    {
        proof {
            use_type_invariant(&*self);
        }
        let mut current: Option<ApprovedToolCall> = None;
        core::mem::swap(&mut current, &mut self.current);
        match current {
            Some(permitted) => {
                self.settle(store, journal, &permitted, result, now);
            },
            None => {},
        }
        self.advance(store, journal, now)
    }

    fn push_message(&mut self, message: Message)
        ensures
            final(self).setting() == old(self).setting(),
            forall|tasks: Map<u128, TaskView>, journal: Seq<char>|
                #[trigger] final(self).state(tasks, journal) == (LoopState {
                    messages: old(self).state(tasks, journal).messages.push(message@),
                    ..old(self).state(tasks, journal)
                }),
    {
        proof {
            use_type_invariant(&*self);
        }
        let mut messages: Vec<Message> = Vec::new();
        core::mem::swap(&mut messages, &mut self.messages);
        proof {
            model_backend::messages_push(messages@, message);
        }
        messages.push(message);
        self.messages = messages;
    }

    fn settle(
        &mut self,
        store: &mut TaskStore,
        journal: &mut String,
        permitted: &ApprovedToolCall,
        returned: Result<String, String>,
        now: Timestamp,
    )
        requires
            old(self).state(old(store)@, old(journal)@).current is None,
        ensures
            final(self).setting() == old(self).setting(),
            final(self).state(final(store)@, final(journal)@) == settled(
                old(self).state(old(store)@, old(journal)@),
                old(self).setting(),
                Permitted { call: permitted.permitted(), by: permitted.by() },
                returned_view(returned),
                now,
            ),
    {
        proof {
            use_type_invariant(&*self);
        }
        let call = permitted.call();
        let (result, outcome) = match returned {
            Ok(t) => {
                let failed: bool = text::starts_with(t.as_str(), TOOL_ERROR);
                let outcome = if failed {
                    Outcome::Failed
                } else {
                    Outcome::Executed
                };
                (t, outcome)
            },
            Err(e) => {
                let mut t = String::from_str("ОШИБКА ИНСТРУМЕНТА: ");
                t.append(e.as_str());
                (t, Outcome::Failed)
            },
        };
        let server: &str = match &self.server {
            Some(name) => name.as_str(),
            None => "-",
        };
        control_center_api::record_call(
            journal,
            self.id,
            server,
            call,
            Some(permitted.approved_by()),
            outcome,
            result.as_str(),
            now,
        );
        control_center_api::add_entry(
            store,
            self.id,
            control_center_api::TOOL_ROLE,
            result.clone(),
            Some(call.id.clone()),
            now,
        );
        self.push_message(Message::tool_result(call.id.clone(), result));
    }

    fn execute(
        &mut self,
        store: &mut TaskStore,
        journal: &mut String,
        permitted: ApprovedToolCall,
        now: Timestamp,
    ) -> (r: Option<AgentAction>)
        requires
            old(self).state(old(store)@, old(journal)@).current is None,
        ensures
            final(self).setting() == old(self).setting(),
            (
                final(self).state(final(store)@, final(journal)@),
                match r {
                    Some(a) => Some(a@),
                    None => None,
                },
            ) == executed(
                old(self).state(old(store)@, old(journal)@),
                old(self).setting(),
                Permitted { call: permitted.permitted(), by: permitted.by() },
                now,
            ),
    {
        proof {
            use_type_invariant(&*self);
        }
        let call = permitted.call();
        let mut content = String::from_str("шаг ");
        content.append(text::show(self.step).as_str());
        content.append(": вызываю '");
        content.append(call.name.as_str());
        content.append("' (разрешено: ");
        content.append(permitted.approved_by().as_str());
        content.append(") с аргументами ");
        content.append(call.arguments.as_str());
        control_center_api::note(store, self.id, content, now);
        match check_arguments(call, json::read_json(call.arguments.as_str())) {
            CallArguments::Usable(arguments) => {
                let name = call.name.clone();
                self.current = Some(permitted);
                Some(AgentAction::Call { name, arguments })
            },
            CallArguments::NoObject(reason) => {
                self.settle(store, journal, &permitted, Err(reason), now);
                None
            },
            CallArguments::Broken(result) => {
                control_center_api::note(store, self.id, result.clone(), now);
                self.push_message(Message::tool_result(call.id.clone(), result));
                None
            },
        }
    }

    fn advance(&mut self, store: &mut TaskStore, journal: &mut String, now: Timestamp) -> (r:
        AgentAction)
        requires
            old(self).state(old(store)@, old(journal)@).current is None,
        ensures
            final(self).setting() == old(self).setting(),
            (final(self).state(final(store)@, final(journal)@), r@) == advanced(
                old(self).state(old(store)@, old(journal)@),
                old(self).setting(),
                now,
            ),
        decreases old(self).state(old(store)@, old(journal)@).queue.len(),
    {
        proof {
            use_type_invariant(&*self);
        }
        let ghost before = self.state(store@, journal@);
        let ghost views = model_backend::calls(self.queue@);
        if self.taken >= self.queue.len() {
            assert(before.queue.len() == 0);
            if self.step >= MAX_TOOL_ITERATIONS {
                let mut reason = String::from_str(
                    "модель не завершила задачу за 8 шагов вызова инструментов на модели '",
                );
                reason.append(self.model.as_str());
                reason.append("' — цикл прерван, чтобы не крутиться бесконечно");
                return AgentAction::Failed(reason);
            }
            self.step = self.step + 1;
            return AgentAction::Generate;
        }
        let call = self.queue[self.taken].copy();
        assert(before.queue[0] == call@);
        assert(views.skip(self.taken as int).skip(1) =~= views.skip(self.taken + 1));
        self.taken = self.taken + 1;
        match tool_gate::decide(&self.auto_approve, call) {
            Decision::Approved(permitted) => {
                match self.execute(store, journal, permitted, now) {
                    Some(action) => action,
                    None => self.advance(store, journal, now),
                }
            },
            Decision::NeedsHuman(call) => {
                let server: &str = match &self.server {
                    Some(name) => name.as_str(),
                    None => "-",
                };
                control_center_api::park_for_approval(store, self.id, server, &call, now);
                AgentAction::Finished(LoopOutcome::AwaitingHuman)
            },
        }
    }
}

// Around the rounds.

/// Notes that the tool server cannot be reached.
pub fn note_unreachable_server(store: &mut TaskStore, id: u128, error: &str, now: Timestamp)
    ensures
        final(store)@ == control_center_api::noted(
            old(store)@,
            id,
            "MCP-сервер недоступен ("@ + error@ + "); работаю без инструментов"@,
            now,
        ),
{
    let mut content = String::from_str("MCP-сервер недоступен (");
    content.append(error);
    content.append("); работаю без инструментов");
    control_center_api::note(store, id, content, now);
}

/// The note on the tools of a server and on those that need no asking.
pub open spec fn tools_note(
    server: Seq<char>,
    tools: Seq<Seq<char>>,
    auto_approve: Seq<Seq<char>>,
) -> Seq<char> {
    "инструменты от '"@ + server + "': "@ + text::joined(tools, ", "@)
        + ". Без подтверждения разрешены: "@ + if auto_approve.len() == 0 {
        "ничего — каждый вызов требует решения человека"@
    } else {
        text::joined(auto_approve, ", "@)
    }
}

/// Notes the tools of a server and which of them need no asking.
pub fn note_tools(
    store: &mut TaskStore,
    id: u128,
    server: &str,
    tools: &Vec<String>,
    auto_approve: &Vec<String>,
    now: Timestamp,
)
    ensures
        final(store)@ == control_center_api::noted(
            old(store)@,
            id,
            tools_note(server@, text::texts(tools@), text::texts(auto_approve@)),
            now,
        ),
{
    let mut content = String::from_str("инструменты от '");
    content.append(server);
    content.append("': ");
    content.append(text::join(tools, ", ").as_str());
    content.append(". Без подтверждения разрешены: ");
    if auto_approve.len() == 0 {
        content.append("ничего — каждый вызов требует решения человека");
    } else {
        content.append(text::join(auto_approve, ", ").as_str());
    }
    control_center_api::note(store, id, content, now);
}

/// Whether a task is one for the media pipeline.
pub fn is_media_task(category: &str) -> (r: bool)
    ensures
        r == (category@ == Category::Video.name()),
{
    text::same(category, Category::Video.as_str())
}

/// What becomes of a task when its rounds are over: an answer is recorded, a
/// failure noted; a task that waits for a decision stays as it is.
pub open spec fn concluded(
    tasks: Map<u128, TaskView>,
    id: u128,
    outcome: Result<LoopOutcome, String>,
    now: Timestamp,
) -> Map<u128, TaskView> {
    match outcome {
        Ok(LoopOutcome::Answer(t)) => control_center_api::recorded(
            tasks,
            id,
            TaskStatus::Done,
            t@,
            now,
        ),
        Ok(LoopOutcome::AwaitingHuman) => tasks,
        Err(reason) => control_center_api::failed(tasks, id, reason@, now),
    }
}

/// Enters how the rounds of a task ended.
pub fn conclude(
    store: &mut TaskStore,
    id: u128,
    outcome: Result<LoopOutcome, String>,
    now: Timestamp,
)
    ensures
        final(store)@ == concluded(old(store)@, id, outcome, now),
{
    match outcome {
        Ok(LoopOutcome::Answer(t)) => {
            control_center_api::record_outcome(store, id, TaskStatus::Done, t, now);
        },
        Ok(LoopOutcome::AwaitingHuman) => {},
        Err(reason) => {
            control_center_api::fail_task(store, id, reason.as_str(), now);
        },
    }
}

/// Whether a call may be executed: its tool needs no asking.
pub open spec fn allowed(setting: LoopSetting, p: Permitted) -> bool {
    p.by == Approval::Allowlist && tool_gate::listed(setting.auto_approve, p.call.name)
}

proof fn lemma_advanced(s: LoopState, setting: LoopSetting, now: Timestamp)
    requires
        s.current is None,
        s.step <= MAX_TOOL_ITERATIONS,
    ensures
        ({
            let (next, action) = advanced(s, setting, now);
            &&& action is Generate ==> next.step == s.step + 1 && next.step <= MAX_TOOL_ITERATIONS
                && next.queue.len() == 0 && next.current is None
            &&& !(action is Generate) ==> next.step == s.step
            &&& action matches ActionView::Call { name, arguments } ==> next.current is Some
                && allowed(setting, next.current->0) && next.current->0.call.name == name
            &&& !(action is Answer)
        }),
    decreases s.queue.len(),
{
    if s.queue.len() > 0 && tool_gate::listed(setting.auto_approve, s.queue[0].name) {
        let call = s.queue[0];
        let rest = LoopState { queue: s.queue.skip(1), ..s };
        let p = Permitted { call, by: Approval::Allowlist };
        let (next, action) = executed(rest, setting, p, now);
        if action is None {
            lemma_advanced(LoopState { queue: rest.queue, ..next }, setting, now);
        }
    }
}

/// The rounds come to an end: the model is asked at most as often as the limit
/// says. Each time the rounds lead to asking the model again it is counted, a
/// call in between counts nothing, and at the limit it is not asked again.
pub proof fn law_rounds_are_bounded(
    s: LoopState,
    setting: LoopSetting,
    response: ResponseView,
    result: Result<Seq<char>, Seq<char>>,
    now: Timestamp,
)
    requires
        0 <= s.step <= MAX_TOOL_ITERATIONS,
    ensures
        answered(s, setting, response, now).1 is Generate ==> answered(
            s,
            setting,
            response,
            now,
        ).0.step == s.step + 1 <= MAX_TOOL_ITERATIONS,
        !(answered(s, setting, response, now).1 is Generate) ==> answered(
            s,
            setting,
            response,
            now,
        ).0.step == s.step,
        s.current is Some && returned(s, setting, result, now).1 is Generate ==> returned(
            s,
            setting,
            result,
            now,
        ).0.step == s.step + 1 <= MAX_TOOL_ITERATIONS,
        s.current is Some && !(returned(s, setting, result, now).1 is Generate) ==> returned(
            s,
            setting,
            result,
            now,
        ).0.step == s.step,
{
    match response {
        ResponseView::Text(_) => {},
        ResponseView::ToolCalls(asked) => {
            if setting.server is Some {
                lemma_advanced(
                    LoopState {
                        messages: s.messages.push(model_backend::calls_message(asked)),
                        current: None,
                        queue: asked,
                        tasks: requested(s.tasks, setting.id, asked, now),
                        ..s
                    },
                    setting,
                    now,
                );
            }
        },
    }
    match s.current {
        Some(p) => {
            lemma_advanced(settled(s, setting, p, result, now), setting, now);
        },
        None => {},
    }
}

/// No tool is called without permission: a call is under execution, it is for the
/// tool that is called, and that tool needs no asking; only when the rounds begin
/// may it be the call that somebody permitted.
pub proof fn law_no_call_without_permission(
    s: LoopState,
    setting: LoopSetting,
    response: ResponseView,
    result: Result<Seq<char>, Seq<char>>,
    now: Timestamp,
)
    requires
        0 <= s.step <= MAX_TOOL_ITERATIONS,
    ensures
        answered(s, setting, response, now).1 matches ActionView::Call { name, arguments } ==> {
            let next = answered(s, setting, response, now).0;
            next.current is Some && allowed(setting, next.current->0)
                && next.current->0.call.name == name
        },
        s.current is Some ==> (returned(s, setting, result, now).1 matches ActionView::Call {
            name,
            arguments,
        } ==> {
            let next = returned(s, setting, result, now).0;
            next.current is Some && allowed(setting, next.current->0)
                && next.current->0.call.name == name
        }),
        s.current is None ==> (started(s, setting, now).1 matches ActionView::Call {
            name,
            arguments,
        } ==> {
            let next = started(s, setting, now).0;
            &&& next.current is Some
            &&& next.current->0.call.name == name
            &&& allowed(setting, next.current->0) || (next.current->0.by == Approval::Human
                && s.tasks.dom().contains(setting.id) && control_center_api::approved_call(
                s.tasks[setting.id].context,
            ) == Some(next.current->0.call))
        }),
{
    match response {
        ResponseView::Text(_) => {},
        ResponseView::ToolCalls(asked) => {
            if setting.server is Some {
                lemma_advanced(
                    LoopState {
                        messages: s.messages.push(model_backend::calls_message(asked)),
                        current: None,
                        queue: asked,
                        tasks: requested(s.tasks, setting.id, asked, now),
                        ..s
                    },
                    setting,
                    now,
                );
            }
        },
    }
    match s.current {
        Some(p) => {
            lemma_advanced(settled(s, setting, p, result, now), setting, now);
        },
        None => {
            assert(control_center_api::last_request(
                Seq::<crate::task_store::EntryView>::empty(),
            ) == -1);
            let context = if s.tasks.dom().contains(setting.id) {
                s.tasks[setting.id].context
            } else {
                Seq::empty()
            };
            match control_center_api::approved_call(context) {
                None => {
                    lemma_advanced(s, setting, now);
                },
                Some(call) => {
                    let (next, action) = executed(
                        s,
                        setting,
                        Permitted { call, by: Approval::Human },
                        now,
                    );
                    if action is None {
                        lemma_advanced(next, setting, now);
                    }
                },
            }
        },
    }
}

/// The identifiers of the calls that the model asked for last and got no result
/// of yet, in their order.
pub open spec fn owed(messages: Seq<MessageView>) -> Seq<Seq<char>>
    decreases messages.len(),
{
    if messages.len() == 0 {
        Seq::empty()
    } else if messages.last().role == Role::Tool {
        let before = owed(messages.drop_last());
        if before.len() > 0 && messages.last().tool_call_id == Some(before[0]) {
            before.skip(1)
        } else {
            before
        }
    } else {
        ids(messages.last().tool_calls)
    }
}

/// The identifiers of calls.
pub open spec fn ids(asked: Seq<ToolCallView>) -> Seq<Seq<char>> {
    asked.map_values(|c: ToolCallView| c.id)
}

/// Whether the calls without a result are the one under execution and the ones
/// still to be decided on.
pub open spec fn accounted(s: LoopState) -> bool {
    owed(s.messages) == match s.current {
        Some(p) => seq![p.call.id] + ids(s.queue),
        None => ids(s.queue),
    }
}

proof fn lemma_result_is_taken_off(messages: Seq<MessageView>, id: Seq<char>, rest: Seq<Seq<char>>, result: Seq<char>)
    requires
        owed(messages) == seq![id] + rest,
    ensures
        owed(messages.push(model_backend::result_message(id, result))) == rest,
{
    let after = messages.push(model_backend::result_message(id, result));
    assert(after.drop_last() =~= messages);
    assert((seq![id] + rest).skip(1) =~= rest);
}

proof fn lemma_advanced_is_accounted(s: LoopState, setting: LoopSetting, now: Timestamp)
    requires
        s.current is None,
        accounted(s),
    ensures
        !(advanced(s, setting, now).1 is AwaitingHuman) ==> accounted(
            advanced(s, setting, now).0,
        ),
    decreases s.queue.len(),
{
    if s.queue.len() > 0 && tool_gate::listed(setting.auto_approve, s.queue[0].name) {
        let call = s.queue[0];
        let rest = LoopState { queue: s.queue.skip(1), ..s };
        let p = Permitted { call, by: Approval::Allowlist };
        let (next, action) = executed(rest, setting, p, now);
        assert(ids(s.queue) =~= seq![call.id] + ids(rest.queue));
        match arguments_of(call, json::json_reading(call.arguments)) {
            ArgumentsView::Usable(_) => {},
            ArgumentsView::NoObject(reason) => {
                lemma_result_is_taken_off(
                    s.messages,
                    call.id,
                    ids(rest.queue),
                    result_text(Err(reason)),
                );
            },
            ArgumentsView::Broken(result) => {
                lemma_result_is_taken_off(s.messages, call.id, ids(rest.queue), result);
            },
        }
        if action is None {
            lemma_advanced_is_accounted(
                LoopState { queue: rest.queue, ..next },
                setting,
                now,
            );
        }
    }
}

/// The model is never asked again while a call of its last message has no result:
/// once it asked for calls, each of them gets one, under its own identifier and in
/// the order asked, before the next time.
pub proof fn law_every_call_gets_its_result(
    s: LoopState,
    setting: LoopSetting,
    asked: Seq<ToolCallView>,
    result: Result<Seq<char>, Seq<char>>,
    now: Timestamp,
)
    requires
        setting.server is Some,
        0 <= s.step <= MAX_TOOL_ITERATIONS,
    ensures
        ({
            let (next, action) = answered(s, setting, ResponseView::ToolCalls(asked), now);
            &&& action is Call ==> accounted(next)
            &&& action is Generate ==> owed(next.messages).len() == 0
        }),
        s.current is Some && accounted(s) ==> {
            let (next, action) = returned(s, setting, result, now);
            &&& action is Call ==> accounted(next)
            &&& action is Generate ==> owed(next.messages).len() == 0
        },
{
    let first = LoopState {
        messages: s.messages.push(model_backend::calls_message(asked)),
        current: None,
        queue: asked,
        tasks: requested(s.tasks, setting.id, asked, now),
        ..s
    };
    lemma_advanced(first, setting, now);
    lemma_advanced_is_accounted(first, setting, now);
    match s.current {
        Some(p) => {
            if accounted(s) {
                lemma_result_is_taken_off(
                    s.messages,
                    p.call.id,
                    ids(s.queue),
                    result_text(result),
                );
                lemma_advanced(settled(s, setting, p, result, now), setting, now);
                lemma_advanced_is_accounted(settled(s, setting, p, result, now), setting, now);
            }
        },
        None => {},
    }
}

/// Whether nothing of what was is lost: what the model was told, what the journal
/// held and what was said in the task stand where they stood, and no other task is
/// touched.
pub open spec fn grown(before: LoopState, after: LoopState, id: u128) -> bool {
    &&& before.messages.len() <= after.messages.len()
    &&& forall|i: int|
        0 <= i < before.messages.len() ==> #[trigger] after.messages[i] == before.messages[i]
    &&& before.journal.len() <= after.journal.len()
    &&& forall|i: int|
        0 <= i < before.journal.len() ==> #[trigger] after.journal[i] == before.journal[i]
    &&& after.tasks.dom() == before.tasks.dom()
    &&& forall|k: u128|
        k != id && before.tasks.dom().contains(k) ==> #[trigger] after.tasks[k] == before.tasks[k]
    &&& before.tasks.dom().contains(id) ==> {
        let a = before.tasks[id].context;
        let b = after.tasks[id].context;
        &&& a.len() <= b.len()
        &&& forall|i: int| 0 <= i < a.len() ==> #[trigger] b[i] == a[i]
    }
}

proof fn lemma_with_entry(
    tasks: Map<u128, TaskView>,
    id: u128,
    e: crate::task_store::EntryView,
    now: Timestamp,
)
    ensures
        control_center_api::with_entry(tasks, id, e, now).dom() == tasks.dom(),
        forall|k: u128|
            k != id && tasks.dom().contains(k) ==> #[trigger] control_center_api::with_entry(
                tasks,
                id,
                e,
                now,
            )[k] == tasks[k],
        tasks.dom().contains(id) ==> control_center_api::with_entry(tasks, id, e, now)[id].context
            == tasks[id].context.push(e),
{
    assert(control_center_api::with_entry(tasks, id, e, now).dom() =~= tasks.dom());
}

proof fn lemma_settled_grows(
    s: LoopState,
    setting: LoopSetting,
    p: Permitted,
    result: Result<Seq<char>, Seq<char>>,
    now: Timestamp,
)
    ensures
        grown(s, settled(s, setting, p, result, now), setting.id),
{
    lemma_with_entry(
        s.tasks,
        setting.id,
        control_center_api::call_entry("tool"@, result_text(result), p.call.id, now),
        now,
    );
}

proof fn lemma_executed_grows(s: LoopState, setting: LoopSetting, p: Permitted, now: Timestamp)
    ensures
        grown(s, executed(s, setting, p, now).0, setting.id),
{
    let note = call_note(s.step, p.call, p.by);
    let noted = LoopState {
        tasks: control_center_api::noted(s.tasks, setting.id, note, now),
        ..s
    };
    lemma_with_entry(
        s.tasks,
        setting.id,
        control_center_api::plain_entry("system"@, note, now),
        now,
    );
    match arguments_of(p.call, json::json_reading(p.call.arguments)) {
        ArgumentsView::Usable(_) => {},
        ArgumentsView::NoObject(reason) => {
            lemma_settled_grows(noted, setting, p, Err(reason), now);
        },
        ArgumentsView::Broken(result) => {
            lemma_with_entry(
                noted.tasks,
                setting.id,
                control_center_api::plain_entry("system"@, result, now),
                now,
            );
        },
    }
}

proof fn lemma_advanced_grows(s: LoopState, setting: LoopSetting, now: Timestamp)
    ensures
        grown(s, advanced(s, setting, now).0, setting.id),
    decreases s.queue.len(),
{
    if s.queue.len() > 0 {
        let call = s.queue[0];
        let rest = LoopState { queue: s.queue.skip(1), ..s };
        if tool_gate::listed(setting.auto_approve, call.name) {
            let p = Permitted { call, by: Approval::Allowlist };
            let (next, action) = executed(rest, setting, p, now);
            lemma_executed_grows(rest, setting, p, now);
            if action is None {
                lemma_advanced_grows(LoopState { queue: rest.queue, ..next }, setting, now);
            }
        } else {
            lemma_with_entry(
                s.tasks,
                setting.id,
                control_center_api::plain_entry(
                    "system"@,
                    tool_gate::description(setting.server_name(), call),
                    now,
                ),
                now,
            );
            assert(advanced(s, setting, now).0.tasks.dom() =~= s.tasks.dom());
        }
    }
}

proof fn lemma_requested(tasks: Map<u128, TaskView>, id: u128, asked: Seq<ToolCallView>, now: Timestamp)
    ensures
        requested(tasks, id, asked, now).dom() == tasks.dom(),
        forall|k: u128|
            k != id && tasks.dom().contains(k) ==> #[trigger] requested(tasks, id, asked, now)[k]
                == tasks[k],
        tasks.dom().contains(id) ==> {
            let a = tasks[id].context;
            let b = requested(tasks, id, asked, now)[id].context;
            &&& b.len() == a.len() + asked.len()
            &&& forall|i: int| 0 <= i < a.len() ==> #[trigger] b[i] == a[i]
            &&& forall|i: int|
                0 <= i < asked.len() ==> b[a.len() + i] == control_center_api::request_entry(
                    #[trigger] asked[i],
                    now,
                )
        },
    decreases asked.len(),
{
    if asked.len() > 0 {
        let before = asked.drop_last();
        lemma_requested(tasks, id, before, now);
        lemma_with_entry(
            requested(tasks, id, before, now),
            id,
            control_center_api::request_entry(asked.last(), now),
            now,
        );
        if tasks.dom().contains(id) {
            let a = tasks[id].context;
            let b = requested(tasks, id, asked, now)[id].context;
            assert forall|i: int| 0 <= i < asked.len() implies b[a.len() + i]
                == control_center_api::request_entry(#[trigger] asked[i], now) by {
                if i < before.len() {
                    assert(before[i] == asked[i]);
                }
            }
        }
    }
}

/// The rounds lose nothing and touch no other task: whatever the model or a tool gives
/// back, what the model was told, what the journal holds and what was said in the task
/// stays, and more is added behind it.
pub proof fn law_nothing_said_is_lost(
    s: LoopState,
    setting: LoopSetting,
    response: ResponseView,
    result: Result<Seq<char>, Seq<char>>,
    now: Timestamp,
)
    ensures
        grown(s, started(s, setting, now).0, setting.id),
        grown(s, answered(s, setting, response, now).0, setting.id),
        grown(s, returned(s, setting, result, now).0, setting.id),
{
    match response {
        ResponseView::Text(_) => {},
        ResponseView::ToolCalls(asked) => {
            if setting.server is Some {
                let first = LoopState {
                    messages: s.messages.push(model_backend::calls_message(asked)),
                    current: None,
                    queue: asked,
                    tasks: requested(s.tasks, setting.id, asked, now),
                    ..s
                };
                lemma_requested(s.tasks, setting.id, asked, now);
                lemma_advanced_grows(first, setting, now);
            }
        },
    }
    match s.current {
        Some(p) => {
            lemma_settled_grows(s, setting, p, result, now);
            lemma_advanced_grows(settled(s, setting, p, result, now), setting, now);
        },
        None => {
            lemma_advanced_grows(s, setting, now);
        },
    }
    let context = if s.tasks.dom().contains(setting.id) {
        s.tasks[setting.id].context
    } else {
        Seq::empty()
    };
    match control_center_api::approved_call(context) {
        None => {
            lemma_advanced_grows(s, setting, now);
        },
        Some(call) => {
            let p = Permitted { call, by: Approval::Human };
            lemma_executed_grows(s, setting, p, now);
            lemma_advanced_grows(executed(s, setting, p, now).0, setting, now);
        },
    }
}

/// The model learns what the tool gave back, and the task keeps it: the next message is
/// the result of the very call that was executed, with the tool's text as it came, and
/// so is the next entry of the task. An error is told as one, with its reason.
pub proof fn law_the_tools_text_reaches_the_model(
    s: LoopState,
    setting: LoopSetting,
    result: Result<Seq<char>, Seq<char>>,
    now: Timestamp,
)
    requires
        s.current is Some,
    ensures
        ({
            let next = returned(s, setting, result, now).0;
            let n = s.messages.len() as int;
            let told = next.messages[n];
            &&& next.messages.len() > n
            &&& told.role == Role::Tool
            &&& told.tool_call_id == Some(s.current->0.call.id)
            &&& told.tool_calls.len() == 0
            &&& result matches Ok(t) ==> told.content == t
            &&& result matches Err(e) ==> told.content == "ОШИБКА ИНСТРУМЕНТА: "@ + e
            &&& s.tasks.dom().contains(setting.id) ==> {
                let c = next.tasks[setting.id].context;
                let at = s.tasks[setting.id].context.len() as int;
                &&& c.len() > at
                &&& c[at].role == "tool"@
                &&& c[at].tool_call_id == Some(s.current->0.call.id)
                &&& c[at].content == told.content
                &&& c[at].at == now
            }
        }),
{
    let p = s.current->0;
    let t = settled(s, setting, p, result, now);
    lemma_settled_grows(s, setting, p, result, now);
    lemma_advanced_grows(t, setting, now);
    let n = s.messages.len() as int;
    assert(t.messages[n].tool_call_id == Some(p.call.id));
    if s.tasks.dom().contains(setting.id) {
        let at = s.tasks[setting.id].context.len() as int;
        assert(t.tasks[setting.id].context[at].role == "tool"@);
    }
}

/// Every call that was handed to the tool leaves a line in the journal, behind what
/// stands there: with the task, the server, the call, who permitted it, what came of
/// it, and whether that was a failure.
pub proof fn law_every_call_is_journalled(
    s: LoopState,
    setting: LoopSetting,
    result: Result<Seq<char>, Seq<char>>,
    now: Timestamp,
)
    requires
        s.current is Some,
        crate::formats::instant_text(now.seconds, now.nanos) is Some,
    ensures
        ({
            let p = s.current->0;
            let next = returned(s, setting, result, now).0;
            let text = match result {
                Ok(t) => t,
                Err(e) => "ОШИБКА ИНСТРУМЕНТА: "@ + e,
            };
            let failed = result is Err || "ОШИБКА ИНСТРУМЕНТА"@.is_prefix_of(text);
            let line = json::object_text(
                seq![
                    ("at"@, crate::formats::instant_text(now.seconds, now.nanos)),
                    ("task"@, Some(crate::formats::id_text(setting.id))),
                    (
                        "server"@,
                        Some(
                            match setting.server {
                                Some(name) => name,
                                None => "-"@,
                            },
                        ),
                    ),
                    ("tool"@, Some(p.call.name)),
                    ("tool_call_id"@, Some(p.call.id)),
                    ("arguments"@, Some(p.call.arguments)),
                    (
                        "approved_by"@,
                        Some(
                            match p.by {
                                Approval::Allowlist => "allowlist"@,
                                Approval::Human => "human"@,
                            },
                        ),
                    ),
                    (
                        "outcome"@,
                        Some(
                            if failed {
                                "failed"@
                            } else {
                                "executed"@
                            },
                        ),
                    ),
                    ("result"@, Some(text)),
                ],
            ) + "\n"@;
            (s.journal + line).is_prefix_of(next.journal)
        }),
{
    let p = s.current->0;
    let t = settled(s, setting, p, result, now);
    lemma_advanced_grows(t, setting, now);
    let next = returned(s, setting, result, now).0;
    assert(t.journal =~= next.journal.subrange(0, t.journal.len() as int));
    let line = control_center_api::journal_line(
        setting.id,
        setting.server_name(),
        p.call,
        Some(p.by),
        result_outcome(result),
        result_text(result),
        now,
    );
    assert(t.journal == s.journal + line);
    let members = tool_gate::audit_members(
        crate::formats::instant_text(now.seconds, now.nanos)->0,
        crate::formats::id_text(setting.id),
        setting.server_name(),
        p.call,
        Some(p.by),
        result_outcome(result),
        result_text(result),
    );
    let text = match result {
        Ok(t) => t,
        Err(e) => "ОШИБКА ИНСТРУМЕНТА: "@ + e,
    };
    let failed = result is Err || "ОШИБКА ИНСТРУМЕНТА"@.is_prefix_of(text);
    assert(members =~= seq![
        ("at"@, crate::formats::instant_text(now.seconds, now.nanos)),
        ("task"@, Some(crate::formats::id_text(setting.id))),
        (
            "server"@,
            Some(
                match setting.server {
                    Some(name) => name,
                    None => "-"@,
                },
            ),
        ),
        ("tool"@, Some(p.call.name)),
        ("tool_call_id"@, Some(p.call.id)),
        ("arguments"@, Some(p.call.arguments)),
        (
            "approved_by"@,
            Some(
                match p.by {
                    Approval::Allowlist => "allowlist"@,
                    Approval::Human => "human"@,
                },
            ),
        ),
        (
            "outcome"@,
            Some(
                if failed {
                    "failed"@
                } else {
                    "executed"@
                },
            ),
        ),
        ("result"@, Some(text)),
    ]);
}

/// What the model says is the answer as it stands, and ends the rounds with nothing
/// changed; tool calls cannot be made without a server, and then nothing changes
/// either.
pub proof fn law_a_text_is_the_answer(s: LoopState, setting: LoopSetting, t: Seq<char>, asked: Seq<ToolCallView>, now: Timestamp)
    ensures
        answered(s, setting, ResponseView::Text(t), now) == (s, ActionView::Answer(t)),
        setting.server is None ==> answered(
            s,
            setting,
            ResponseView::ToolCalls(asked),
            now,
        ).0 == s && answered(s, setting, ResponseView::ToolCalls(asked), now).1 is Failed,
{
}

/// What the model asked for is kept: its next message of the conversation asks for
/// exactly these calls, in their order, and for each of them the task gets an entry,
/// all of them before anything is done about the first.
pub proof fn law_every_asked_call_is_entered(
    s: LoopState,
    setting: LoopSetting,
    asked: Seq<ToolCallView>,
    i: int,
    now: Timestamp,
)
    requires
        setting.server is Some,
    ensures
        ({
            let next = answered(s, setting, ResponseView::ToolCalls(asked), now).0;
            let n = s.messages.len() as int;
            let said = next.messages[n];
            &&& next.messages.len() > n
            &&& said.role == Role::Assistant
            &&& said.tool_calls == asked
            &&& said.tool_call_id is None
            &&& s.tasks.dom().contains(setting.id) && 0 <= i < asked.len() ==> {
                let c = next.tasks[setting.id].context;
                let at = s.tasks[setting.id].context.len() + i;
                &&& c.len() > at
                &&& c[at].role == "tool_request"@
                &&& c[at].tool_call_id == Some(asked[i].id)
                &&& c[at].content == json::object_text(
                    seq![("name"@, Some(asked[i].name)), ("arguments"@, Some(asked[i].arguments))],
                )
            }
        }),
{
    let first = LoopState {
        messages: s.messages.push(model_backend::calls_message(asked)),
        current: None,
        queue: asked,
        tasks: requested(s.tasks, setting.id, asked, now),
        ..s
    };
    lemma_requested(s.tasks, setting.id, asked, now);
    lemma_advanced_grows(first, setting, now);
    let n = s.messages.len() as int;
    assert(first.messages[n].tool_calls == asked);
    if s.tasks.dom().contains(setting.id) && 0 <= i < asked.len() {
        let call = asked[i];
        let at = s.tasks[setting.id].context.len() + i;
        assert(first.tasks[setting.id].context[at] == control_center_api::request_entry(call, now));
        assert(control_center_api::request_members(call) =~= seq![
            ("name"@, Some(call.name)),
            ("arguments"@, Some(call.arguments)),
        ]);
    }
}

/// The first call is decided on first. A tool that is not on the list, letter for
/// letter, is not called: somebody has to decide, the task waits, and neither the model
/// nor the journal is told of anything. A tool on the list is called, with the
/// arguments as the model wrote them.
pub proof fn law_the_first_call_is_decided_on(
    s: LoopState,
    setting: LoopSetting,
    asked: Seq<ToolCallView>,
    now: Timestamp,
)
    requires
        setting.server is Some,
        asked.len() > 0,
    ensures
        ({
            let call = asked[0];
            let (next, action) = answered(s, setting, ResponseView::ToolCalls(asked), now);
            let read = json::json_reading(call.arguments);
            &&& !setting.auto_approve.contains(call.name) ==> {
                &&& action is AwaitingHuman
                &&& next.messages.len() == s.messages.len() + 1
                &&& next.journal == s.journal
                &&& next.current is None
                &&& s.tasks.dom().contains(setting.id) ==> next.tasks[setting.id].status
                    == TaskStatus::WaitingForHuman
            }
            &&& setting.auto_approve.contains(call.name) && !text::is_blank(call.arguments) && (
            read matches Ok((JsonShape::Object, _))) ==> {
                &&& action == (ActionView::Call {
                    name: call.name,
                    arguments: Some(call.arguments),
                })
                &&& next.current == Some(Permitted { call, by: Approval::Allowlist })
                &&& next.queue == asked.skip(1)
                &&& next.messages.len() == s.messages.len() + 1
                &&& next.journal == s.journal
            }
            &&& setting.auto_approve.contains(call.name) && (text::is_blank(call.arguments) || (read
                matches Ok((JsonShape::Null, _)))) ==> {
                &&& action == (ActionView::Call { name: call.name, arguments: None })
                &&& next.current == Some(Permitted { call, by: Approval::Allowlist })
                &&& next.queue == asked.skip(1)
            }
        }),
{
    lemma_requested(s.tasks, setting.id, asked, now);
}

/// A call whose arguments are of no use is not made, and the model is told so as the
/// result of that call: of arguments that are not JSON with the reader's words and the
/// arguments as they came, of others that are no object with what they are.
pub proof fn law_useless_arguments_are_told(
    s: LoopState,
    setting: LoopSetting,
    p: Permitted,
    now: Timestamp,
)
    requires
        !text::is_blank(p.call.arguments),
    ensures
        ({
            let (next, action) = executed(s, setting, p, now);
            let n = s.messages.len() as int;
            let told = next.messages[n];
            match json::json_reading(p.call.arguments) {
                Err(e) => {
                    &&& action is None
                    &&& next.messages.len() == n + 1
                    &&& told.role == Role::Tool
                    &&& told.tool_call_id == Some(p.call.id)
                    &&& "ОШИБКА ИНСТРУМЕНТА"@.is_prefix_of(told.content)
                    &&& p.call.arguments.is_suffix_of(told.content)
                    &&& text::occurs(e, told.content)
                    &&& next.journal == s.journal
                },
                Ok((shape, shown)) => shape != JsonShape::Object && shape != JsonShape::Null ==> {
                    &&& action is None
                    &&& next.messages.len() == n + 1
                    &&& told.role == Role::Tool
                    &&& told.tool_call_id == Some(p.call.id)
                    &&& "ОШИБКА ИНСТРУМЕНТА"@.is_prefix_of(told.content)
                    &&& shown.is_suffix_of(told.content)
                    &&& text::occurs(p.call.name, told.content)
                },
            }
        }),
{
    reveal_strlit("ОШИБКА ИНСТРУМЕНТА");
    reveal_strlit("ОШИБКА ИНСТРУМЕНТА: ");
    reveal_strlit("ОШИБКА ИНСТРУМЕНТА: аргументы не разобрались как JSON (");
    let mark = "ОШИБКА ИНСТРУМЕНТА"@;
    let (next, action) = executed(s, setting, p, now);
    let told = next.messages[s.messages.len() as int];
    match json::json_reading(p.call.arguments) {
        Err(e) => {
            let head = "ОШИБКА ИНСТРУМЕНТА: аргументы не разобрались как JSON ("@;
            let c = head + e + "); пришло: "@ + p.call.arguments;
            assert(told.content == c);
            assert(mark =~= c.subrange(0, mark.len() as int));
            assert(p.call.arguments =~= c.subrange(c.len() - p.call.arguments.len(), c.len() as int));
            let at = head.len() as int;
            assert(e =~= c.skip(at).subrange(0, e.len() as int));
            assert(e.is_prefix_of(c.skip(at)));
        },
        Ok((shape, shown)) => {
            if shape != JsonShape::Object && shape != JsonShape::Null {
                let head = "аргументы инструмента '"@;
                let reason = head + p.call.name + "' не объект JSON, а "@ + shown;
                let c = "ОШИБКА ИНСТРУМЕНТА: "@ + reason;
                assert(told.content == c);
                assert(mark =~= c.subrange(0, mark.len() as int));
                assert(shown =~= c.subrange(c.len() - shown.len(), c.len() as int));
                let at = "ОШИБКА ИНСТРУМЕНТА: "@.len() + head.len() as int;
                assert(p.call.name =~= c.skip(at).subrange(0, p.call.name.len() as int));
                assert(p.call.name.is_prefix_of(c.skip(at)));
            }
        },
    }
}

/// When no call is left to decide on, the model is asked again, unless it was asked
/// eight times already: then the rounds fail.
pub proof fn law_the_model_is_asked_eight_times(
    s: LoopState,
    setting: LoopSetting,
    result: Result<Seq<char>, Seq<char>>,
    now: Timestamp,
)
    requires
        s.queue.len() == 0,
    ensures
        s.step < 8 ==> returned(s, setting, result, now).1 is Generate && returned(
            s,
            setting,
            result,
            now,
        ).0.step == s.step + 1,
        s.step >= 8 ==> returned(s, setting, result, now).1 is Failed,
        returned(s, setting, result, now).0.current is None || s.current is None,
{
}

/// The calls that the model asked for are taken one after the other: while some are
/// left after a tool gave its result, the next one is decided on before the model is
/// asked again.
pub proof fn law_the_next_call_follows(
    s: LoopState,
    setting: LoopSetting,
    result: Result<Seq<char>, Seq<char>>,
    now: Timestamp,
)
    requires
        s.current is Some,
        s.queue.len() > 0,
    ensures
        ({
            let call = s.queue[0];
            let (next, action) = returned(s, setting, result, now);
            &&& !setting.auto_approve.contains(call.name) ==> action is AwaitingHuman
            &&& setting.auto_approve.contains(call.name) && !text::is_blank(call.arguments) && (
            json::json_reading(call.arguments) matches Ok((JsonShape::Object, _))) ==> action == (
            ActionView::Call { name: call.name, arguments: Some(call.arguments) }) && next.current
                == Some(Permitted { call, by: Approval::Allowlist }) && next.queue
                == s.queue.skip(1)
        }),
{
}

/// The rounds begin with the call that somebody permitted, where there is one: it is
/// made, with its arguments, without being asked about again, and cannot be made
/// without a server. Without such a call the model is asked.
pub proof fn law_a_permitted_call_is_made_first(s: LoopState, setting: LoopSetting, now: Timestamp)
    requires
        s.tasks.dom().contains(setting.id),
        s.queue.len() == 0,
        s.step < 8,
    ensures
        match control_center_api::approved_call(s.tasks[setting.id].context) {
            Some(call) => {
                let (next, action) = started(s, setting, now);
                &&& setting.server is None ==> next == s && action is Failed
                &&& setting.server is Some && !text::is_blank(call.arguments) && (
                json::json_reading(call.arguments) matches Ok((JsonShape::Object, _))) ==> action
                    == (ActionView::Call {
                    name: call.name,
                    arguments: Some(call.arguments),
                }) && next.current == Some(Permitted { call, by: Approval::Human })
            },
            None => started(s, setting, now).1 is Generate && started(s, setting, now).0.tasks
                == s.tasks && started(s, setting, now).0.messages == s.messages,
        },
{
}

/// How the rounds end is entered into the task: a running task is done with the answer
/// as its last entry, or has failed with the reason in a note; one that waits for a
/// decision is left as it is; and no other task changes.
pub proof fn law_the_end_is_entered(
    tasks: Map<u128, TaskView>,
    id: u128,
    answer: String,
    reason: String,
    other: u128,
    now: Timestamp,
)
    requires
        tasks.dom().contains(id),
        tasks[id].status == TaskStatus::Running,
    ensures
        ({
            let t = concluded(tasks, id, Ok(LoopOutcome::Answer(answer)), now)[id];
            &&& t.status == TaskStatus::Done
            &&& t.context.len() == tasks[id].context.len() + 1
            &&& t.context.last().role == "assistant"@
            &&& t.context.last().content == answer@
            &&& t.context.drop_last() == tasks[id].context
        }),
        ({
            let t = concluded(tasks, id, Err(reason), now)[id];
            &&& t.status == TaskStatus::Failed
            &&& t.context.len() == tasks[id].context.len() + 1
            &&& t.context.last().role == "system"@
            &&& reason@.is_suffix_of(t.context.last().content)
            &&& t.context.drop_last() == tasks[id].context
        }),
        concluded(tasks, id, Ok(LoopOutcome::AwaitingHuman), now) == tasks,
        other != id && tasks.dom().contains(other) ==> concluded(
            tasks,
            id,
            Ok(LoopOutcome::Answer(answer)),
            now,
        )[other] == tasks[other] && concluded(tasks, id, Err(reason), now)[other] == tasks[other],
{
    let done = concluded(tasks, id, Ok(LoopOutcome::Answer(answer)), now)[id];
    assert(done.context.drop_last() =~= tasks[id].context);
    let failed = concluded(tasks, id, Err(reason), now)[id];
    assert(failed.context.drop_last() =~= tasks[id].context);
    let c = "Ошибка: "@ + reason@;
    assert(reason@ =~= c.subrange(c.len() - reason@.len(), c.len() as int));
}

/// The note before a call names the tool, who permitted it and the arguments.
pub proof fn law_a_call_is_announced(s: LoopState, setting: LoopSetting, p: Permitted, now: Timestamp)
    requires
        s.tasks.dom().contains(setting.id),
    ensures
        ({
            let c = executed(s, setting, p, now).0.tasks[setting.id].context;
            let at = s.tasks[setting.id].context.len() as int;
            &&& c.len() > at
            &&& c[at].role == "system"@
            &&& c[at].tool_call_id is None
            &&& text::occurs(p.call.name, c[at].content)
            &&& text::occurs(
                match p.by {
                    Approval::Allowlist => "allowlist"@,
                    Approval::Human => "human"@,
                },
                c[at].content,
            )
            &&& p.call.arguments.is_suffix_of(c[at].content)
        }),
{
    lemma_executed_grows(s, setting, p, now);
    let note = call_note(s.step, p.call, p.by);
    let noted = LoopState {
        tasks: control_center_api::noted(s.tasks, setting.id, note, now),
        ..s
    };
    let at = s.tasks[setting.id].context.len() as int;
    assert(noted.tasks[setting.id].context[at].content == note);
    match arguments_of(p.call, json::json_reading(p.call.arguments)) {
        ArgumentsView::Usable(_) => {},
        ArgumentsView::NoObject(reason) => {
            lemma_settled_grows(noted, setting, p, Err(reason), now);
        },
        ArgumentsView::Broken(_) => {},
    }
    let a = "шаг "@ + text::decimal(s.step as nat) + ": вызываю '"@;
    let b = a + p.call.name + "' (разрешено: "@;
    let x = a.len() as int;
    let y = b.len() as int;
    assert(p.call.name =~= note.skip(x).subrange(0, p.call.name.len() as int));
    assert(p.call.name.is_prefix_of(note.skip(x)));
    assert(p.by.word() =~= note.skip(y).subrange(0, p.by.word().len() as int));
    assert(p.by.word().is_prefix_of(note.skip(y)));
    assert(p.call.arguments =~= note.subrange(
        note.len() - p.call.arguments.len(),
        note.len() as int,
    ));
}

/// Rounds that are broken off are told with the model and the number of steps, and the
/// tools of a server are told by their names, with those that need no asking, or with
/// the word that every call has to be decided on.
pub proof fn law_notes_name_the_model_and_the_tools(
    model: Seq<char>,
    server: Seq<char>,
    tools: Seq<Seq<char>>,
    auto_approve: Seq<Seq<char>>,
)
    ensures
        too_many_steps(model) == "модель не завершила задачу за 8 шагов вызова инструментов на модели '"@
            + model + "' — цикл прерван, чтобы не крутиться бесконечно"@,
        ("инструменты от '"@ + server + "': "@ + text::joined(tools, ", "@)).is_prefix_of(
            tools_note(server, tools, auto_approve),
        ),
        auto_approve.len() > 0 ==> text::joined(auto_approve, ", "@).is_suffix_of(
            tools_note(server, tools, auto_approve),
        ),
        auto_approve.len() == 0 ==> "ничего — каждый вызов требует решения человека"@.is_suffix_of(
            tools_note(server, tools, auto_approve),
        ),
{
    let w = tools_note(server, tools, auto_approve);
    let head = "инструменты от '"@ + server + "': "@ + text::joined(tools, ", "@);
    assert(head =~= w.subrange(0, head.len() as int));
    let end = if auto_approve.len() == 0 {
        "ничего — каждый вызов требует решения человека"@
    } else {
        text::joined(auto_approve, ", "@)
    };
    assert(end =~= w.subrange(w.len() - end.len(), w.len() as int));
}

/// The arguments of a call are taken as the model wrote them where they are a JSON
/// object; blank ones and a `null` stand for none; anything else is of no use.
pub proof fn law_arguments_are_taken_as_written(
    call: ToolCallView,
    shape: JsonShape,
    shown: Seq<char>,
    e: Seq<char>,
)
    ensures
        text::is_blank(call.arguments) ==> arguments_of(call, Ok((shape, shown)))
            == ArgumentsView::Usable(None) && arguments_of(call, Err(e)) == ArgumentsView::Usable(
            None,
        ),
        !text::is_blank(call.arguments) ==> {
            let a = arguments_of(call, Ok((shape, shown)));
            &&& shape == JsonShape::Object ==> a == ArgumentsView::Usable(Some(call.arguments))
            &&& shape == JsonShape::Null ==> a == ArgumentsView::Usable(None)
            &&& shape != JsonShape::Object && shape != JsonShape::Null ==> a is NoObject
            &&& arguments_of(call, Err(e)) is Broken
        },
{
}

/// A call whose arguments are no object counts as made and failed: it leaves a line in
/// the journal and a result in the task, the one that the model is told. One whose
/// arguments are not JSON was not made: it leaves a note in the task, and no more.
pub proof fn law_useless_arguments_leave_their_trace(
    s: LoopState,
    setting: LoopSetting,
    p: Permitted,
    now: Timestamp,
)
    requires
        !text::is_blank(p.call.arguments),
        s.tasks.dom().contains(setting.id),
    ensures
        ({
            let next = executed(s, setting, p, now).0;
            let told = next.messages[s.messages.len() as int].content;
            let c = next.tasks[setting.id].context;
            let n = s.tasks[setting.id].context.len() as int;
            match json::json_reading(p.call.arguments) {
                Err(e) => {
                    &&& next.journal == s.journal
                    &&& c.len() == n + 2
                    &&& c[n + 1].role == "system"@
                    &&& c[n + 1].tool_call_id is None
                    &&& c[n + 1].content == told
                },
                Ok((shape, shown)) => shape != JsonShape::Object && shape != JsonShape::Null ==> {
                    &&& next.journal == s.journal + control_center_api::journal_line(
                        setting.id,
                        match setting.server {
                            Some(name) => name,
                            None => "-"@,
                        },
                        p.call,
                        Some(p.by),
                        Outcome::Failed,
                        told,
                        now,
                    )
                    &&& c.len() == n + 2
                    &&& c[n + 1].role == "tool"@
                    &&& c[n + 1].tool_call_id == Some(p.call.id)
                    &&& c[n + 1].content == told
                },
            }
        }),
{
}

} // verus!
