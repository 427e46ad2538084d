//! What is done to tasks on request, and what of it is shown.
//!
//! The functions here work on the tasks in memory. Receiving requests, keeping
//! the tasks in a database and running models is done around them.

use crate::clock::Timestamp;
use crate::formats;
use crate::json;
use crate::model_backend;
use crate::model_backend::{Message, MessageView, Role, ToolCall, ToolCallView};
use crate::router;
use crate::router::{Router, TaskMetadata};
use crate::task_store;
use crate::task_store::{ContextEntry, EntryView, Task, TaskStatus, TaskStore, TaskView};
use crate::text;
use crate::tool_gate;
use crate::tool_gate::{Approval, Outcome};
use vstd::prelude::*;

verus! {

/// The role of an entry that holds the path of a finished file.
pub const ARTIFACT_ROLE: &'static str = "artifact";

/// The role of an entry that holds the result of a tool call.
pub const TOOL_ROLE: &'static str = "tool";

/// The role of an entry that holds a tool call the model asked for.
pub const TOOL_REQUEST_ROLE: &'static str = "tool_request";

/// The role of an entry that says that somebody permitted a tool call.
pub const TOOL_APPROVAL_ROLE: &'static str = "tool_approval";

/// The role of an entry that holds an answer.
pub const ASSISTANT_ROLE: &'static str = "assistant";

/// The role of an entry that holds what the user said.
pub const USER_ROLE: &'static str = "user";

/// The role of an entry that holds a note.
pub const SYSTEM_ROLE: &'static str = "system";

// What was said in a task, as messages for a model.

/// The name and the arguments of a call, as an entry holds them.
pub open spec fn request_of(content: Seq<char>) -> Option<(Seq<char>, Seq<char>)> {
    match (json::text_field(content, "name"@), json::text_field(content, "arguments"@)) {
        (Some(name), Some(arguments)) => Some((name, arguments)),
        _ => None,
    }
}

/// The view of a name and arguments.
pub open spec fn request_view(r: Option<(String, String)>) -> Option<(Seq<char>, Seq<char>)> {
    match r {
        Some(p) => Some((p.0@, p.1@)),
        None => None,
    }
}

/// Reads the name and the arguments of a call out of an entry.
pub fn parse_tool_request(content: &str) -> (r: Option<(String, String)>)
    ensures
        request_view(r) == request_of(content@),
{
    let name = match json::read_text_field(content, "name") {
        Some(name) => name,
        None => {
            return None;
        },
    };
    match json::read_text_field(content, "arguments") {
        Some(arguments) => Some((name, arguments)),
        None => None,
    }
}

/// The message that an entry makes. `request` is the call that the entry holds,
/// where it holds one.
pub open spec fn message_for(e: EntryView, request: Option<(Seq<char>, Seq<char>)>) -> MessageView {
    if e.role == "user"@ {
        model_backend::plain_message(Role::User, e.content)
    } else if e.role == "assistant"@ {
        model_backend::plain_message(Role::Assistant, e.content)
    } else if e.role == "tool"@ && e.tool_call_id is Some {
        model_backend::result_message(e.tool_call_id->0, e.content)
    } else if e.role == "tool_request"@ {
        match (e.tool_call_id, request) {
            (Some(id), Some((name, arguments))) => model_backend::calls_message(
                seq![ToolCallView { id, name, arguments }],
            ),
            _ => model_backend::plain_message(Role::System, e.content),
        }
    } else {
        model_backend::plain_message(Role::System, e.content)
    }
}

/// Makes a message of an entry. `request` is the call that the entry holds, where
/// it holds one.
pub fn entry_message(entry: &ContextEntry, request: Option<(String, String)>) -> (r: Message)
    ensures
        r@ == message_for(entry@, request_view(request)),
{
    proof {
        lemma_roles_differ();
    }
    let role = entry.role.as_str();
    if text::same(role, USER_ROLE) {
        return Message::new(Role::User, entry.content.clone());
    }
    if text::same(role, ASSISTANT_ROLE) {
        return Message::new(Role::Assistant, entry.content.clone());
    }
    if text::same(role, TOOL_ROLE) {
        return match &entry.tool_call_id {
            Some(id) => Message::tool_result(id.clone(), entry.content.clone()),
            None => Message::new(Role::System, entry.content.clone()),
        };
    }
    if text::same(role, TOOL_REQUEST_ROLE) {
        return match (&entry.tool_call_id, request) {
            (Some(id), Some((name, arguments))) => {
                let call = ToolCall { id: id.clone(), name, arguments };
                let ghost view = call@;
                let mut asked: Vec<ToolCall> = Vec::new();
                asked.push(call);
                assert(model_backend::calls(asked@) =~= seq![view]);
                Message::assistant_tool_calls(asked)
            },
            _ => Message::new(Role::System, entry.content.clone()),
        };
    }
    Message::new(Role::System, entry.content.clone())
}

proof fn lemma_roles_differ()
    ensures
        "user"@ != "assistant"@,
        "user"@ != "tool"@,
        "user"@ != "tool_request"@,
        "assistant"@ != "tool"@,
        "assistant"@ != "tool_request"@,
        "tool"@ != "tool_request"@,
        "tool"@ != "tool_approval"@,
        "tool_request"@ != "tool_approval"@,
        "system"@ != "assistant"@,
        "system"@ != "tool"@,
        "system"@ != "tool_request"@,
        "system"@ != "tool_approval"@,
        "user"@ != "tool_approval"@,
{
    reveal_strlit("user");
    reveal_strlit("assistant");
    reveal_strlit("tool");
    reveal_strlit("tool_request");
    reveal_strlit("tool_approval");
    reveal_strlit("system");
    assert("user"@[0] != "assistant"@[0]);
    assert("user"@[0] != "tool"@[0]);
    assert("user"@.len() != "tool_request"@.len());
    assert("user"@.len() != "tool_approval"@.len());
    assert("assistant"@.len() != "tool"@.len());
    assert("assistant"@.len() != "tool_request"@.len());
    assert("tool"@.len() != "tool_request"@.len());
    assert("tool"@.len() != "tool_approval"@.len());
    assert("tool_request"@.len() != "tool_approval"@.len());
    assert("system"@.len() != "assistant"@.len());
    assert("system"@.len() != "tool"@.len());
    assert("system"@.len() != "tool_request"@.len());
    assert("system"@.len() != "tool_approval"@.len());
}

/// What was said in a task, as messages for a model: one for each entry, in
/// their order.
pub open spec fn conversation(context: Seq<EntryView>) -> Seq<MessageView> {
    context.map_values(|e: EntryView| message_for(e, request_of(e.content)))
}

/// Turns what was said in a task into messages for a model.
pub fn context_to_messages(context: &Vec<ContextEntry>) -> (r: Vec<Message>)
    ensures
        model_backend::messages(r@) == conversation(task_store::entries(context@)),
{
    broadcast use model_backend::messages_push;

    let ghost all = task_store::entries(context@);
    let ghost wanted = conversation(all);
    let mut out: Vec<Message> = Vec::new();
    let mut i: usize = 0;
    assert(model_backend::messages(out@) =~= wanted.take(0));
    while i < context.len()
        invariant
            i <= context@.len(),
            all == task_store::entries(context@),
            wanted == conversation(all),
            model_backend::messages(out@) == wanted.take(i as int),
        decreases context@.len() - i,
    {
        let entry = &context[i];
        assert(all[i as int] == entry@);
        let request = parse_tool_request(entry.content.as_str());
        out.push(entry_message(entry, request));
        assert(wanted.take(i + 1) =~= wanted.take(i as int).push(wanted[i as int]));
        i = i + 1;
    }
    assert(wanted.take(wanted.len() as int) =~= wanted);
    out
}

// Tool calls that await a decision.

/// The last entry that holds a call the model asked for; -1 where there is none.
pub open spec fn last_request(context: Seq<EntryView>) -> int
    decreases context.len(),
{
    if context.len() == 0 {
        -1
    } else if context.last().role == "tool_request"@ {
        context.len() - 1
    } else {
        last_request(context.drop_last())
    }
}

/// Whether an entry of a role, at a place or behind it, belongs to a call.
pub open spec fn marked(context: Seq<EntryView>, from: int, role: Seq<char>, id: Seq<char>) -> bool {
    exists|i: int|
        from <= i < context.len() && (#[trigger] context[i]).role == role && context[i].tool_call_id
            == Some(id)
}

/// Where the call stands that awaits a decision: the last one asked for, if it
/// can be told from others and no result of it came after it.
pub open spec fn awaiting(context: Seq<EntryView>) -> Option<int> {
    let k = last_request(context);
    if k < 0 || context[k].tool_call_id is None || marked(
        context,
        k,
        "tool"@,
        context[k].tool_call_id->0,
    ) {
        None
    } else {
        Some(k)
    }
}

/// The call that awaits a decision.
pub open spec fn pending_call(context: Seq<EntryView>) -> Option<ToolCallView> {
    match awaiting(context) {
        None => None,
        Some(k) => match request_of(context[k].content) {
            None => None,
            Some((name, arguments)) => Some(
                ToolCallView { id: context[k].tool_call_id->0, name, arguments },
            ),
        },
    }
}

/// The call that was permitted and was not executed: it awaits a decision, there
/// is a permission of it, and nowhere a result.
pub open spec fn approved_call(context: Seq<EntryView>) -> Option<ToolCallView> {
    match pending_call(context) {
        None => None,
        Some(call) => if marked(context, 0, "tool_approval"@, call.id) && !marked(
            context,
            0,
            "tool"@,
            call.id,
        ) {
            Some(call)
        } else {
            None
        },
    }
}

/// The view of a call, where there is one.
pub open spec fn opt_call(r: Option<ToolCall>) -> Option<ToolCallView> {
    match r {
        Some(c) => Some(c@),
        None => None,
    }
}

proof fn lemma_last_request(context: Seq<EntryView>)
    ensures
        -1 <= last_request(context) < context.len(),
        last_request(context) >= 0 ==> context[last_request(context)].role == "tool_request"@,
        forall|i: int|
            last_request(context) < i < context.len() ==> (#[trigger] context[i]).role
                != "tool_request"@,
    decreases context.len(),
{
    if context.len() > 0 && context.last().role != "tool_request"@ {
        lemma_last_request(context.drop_last());
        let rest = context.drop_last();
        assert forall|i: int|
            last_request(context) < i < context.len() implies (#[trigger] context[i]).role
            != "tool_request"@ by {
            if i < context.len() - 1 {
                assert(rest[i] == context[i]);
            }
        }
    }
}

/// Whether an entry of a role, at a place or behind it, belongs to a call.
fn has_mark(context: &Vec<ContextEntry>, from: usize, role: &str, id: &str) -> (r: bool)
    requires
        from <= context@.len(),
    ensures
        r == marked(task_store::entries(context@), from as int, role@, id@),
{
    let ghost all = task_store::entries(context@);
    let mut i: usize = from;
    while i < context.len()
        invariant
            from <= i <= context@.len(),
            all == task_store::entries(context@),
            forall|k: int|
                from <= k < i ==> !((#[trigger] all[k]).role == role@ && all[k].tool_call_id == Some(
                    id@,
                )),
        decreases context@.len() - i,
    {
        let e = &context[i];
        assert(all[i as int] == e@);
        if text::same(e.role.as_str(), role) {
            match &e.tool_call_id {
                Some(other) => {
                    if text::same(other.as_str(), id) {
                        return true;
                    }
                },
                None => {},
            }
        }
        i = i + 1;
    }
    false
}

/// Where the call stands that awaits a decision.
pub fn awaiting_request(context: &Vec<ContextEntry>) -> (r: Option<usize>)
    ensures
        match r {
            Some(k) => awaiting(task_store::entries(context@)) == Some(k as int) && k
                < context@.len() && context@[k as int].tool_call_id is Some,
            None => awaiting(task_store::entries(context@)) is None,
        },
{
    let ghost all = task_store::entries(context@);
    let mut n: usize = context.len();
    assert(all.take(n as int) =~= all);
    while n > 0 && !text::same(context[n - 1].role.as_str(), TOOL_REQUEST_ROLE)
        invariant
            n <= context@.len(),
            all == task_store::entries(context@),
            last_request(all.take(n as int)) == last_request(all),
        decreases n,
    {
        assert(all.take(n as int).last() == context@[n - 1]@);
        assert(all.take(n as int).drop_last() =~= all.take(n - 1));
        n = n - 1;
    }
    if n == 0 {
        return None;
    }
    assert(all.take(n as int).last() == context@[n - 1]@);
    assert(last_request(all) == n - 1);
    assert(all[n - 1] == context@[n - 1]@);
    match &context[n - 1].tool_call_id {
        None => None,
        Some(id) => {
            if has_mark(context, n - 1, TOOL_ROLE, id.as_str()) {
                None
            } else {
                Some(n - 1)
            }
        },
    }
}

/// The call that awaits a decision.
pub fn pending_tool_request(context: &Vec<ContextEntry>) -> (r: Option<ToolCall>)
    ensures
        opt_call(r) == pending_call(task_store::entries(context@)),
{
    let k: usize = match awaiting_request(context) {
        Some(k) => k,
        None => {
            return None;
        },
    };
    let entry = &context[k];
    assert(task_store::entries(context@)[k as int] == entry@);
    match (&entry.tool_call_id, parse_tool_request(entry.content.as_str())) {
        (Some(id), Some((name, arguments))) => Some(ToolCall { id: id.clone(), name, arguments }),
        _ => None,
    }
}

/// The call that was permitted and was not executed.
pub fn approved_pending_call(context: &Vec<ContextEntry>) -> (r: Option<ToolCall>)
    ensures
        opt_call(r) == approved_call(task_store::entries(context@)),
{
    match pending_tool_request(context) {
        None => None,
        Some(call) => {
            if has_mark(context, 0, TOOL_APPROVAL_ROLE, call.id.as_str()) && !has_mark(
                context,
                0,
                TOOL_ROLE,
                call.id.as_str(),
            ) {
                Some(call)
            } else {
                None
            }
        },
    }
}

/// Once a call has a result it no longer awaits a decision, so a permission is
/// used once: whatever was said before, after a result for the last call nothing
/// is pending and nothing is permitted.
pub proof fn law_answered_call_is_settled(context: Seq<EntryView>, result: EntryView)
    requires
        result.role == "tool"@,
        last_request(context) >= 0,
        result.tool_call_id == context[last_request(context)].tool_call_id,
    ensures
        pending_call(context.push(result)) is None,
        approved_call(context.push(result)) is None,
{
    lemma_roles_differ();
    lemma_last_request(context);
    let after = context.push(result);
    assert(after.drop_last() =~= context);
    assert(last_request(after) == last_request(context));
    let k = last_request(context);
    assert(after[k] == context[k]);
    assert(after[context.len() as int] == result);
}

/// A permission for the pending call makes it the permitted one, unless a result
/// of a call with the same identifier was entered before. With such a result, from
/// an earlier call under the same identifier, the call awaits a decision, since the
/// result does not stand behind it, and after a permission there is no permitted
/// call, since there is a result: see [`tool_decision`].
pub proof fn law_permission_is_for_the_pending_call(context: Seq<EntryView>, permission: EntryView)
    requires
        pending_call(context) is Some,
        permission.role == "tool_approval"@,
        permission.tool_call_id == Some(pending_call(context)->0.id),
    ensures
        approved_call(context.push(permission)) == if marked(
            context,
            0,
            "tool"@,
            pending_call(context)->0.id,
        ) {
            None
        } else {
            pending_call(context)
        },
{
    lemma_roles_differ();
    lemma_last_request(context);
    let after = context.push(permission);
    assert(after.drop_last() =~= context);
    assert(last_request(after) == last_request(context));
    let k = last_request(context);
    assert(after[k] == context[k]);
    assert(after[context.len() as int] == permission);
    let id = context[k].tool_call_id->0;
    assert forall|from: int| 0 <= from implies #[trigger] marked(after, from, "tool"@, id)
        == marked(context, from, "tool"@, id) by {
        if marked(after, from, "tool"@, id) {
            let i = choose|i: int|
                from <= i < after.len() && (#[trigger] after[i]).role == "tool"@
                    && after[i].tool_call_id == Some(id);
            assert(i < context.len());
            assert(context[i] == after[i]);
        }
        if marked(context, from, "tool"@, id) {
            let i = choose|i: int|
                from <= i < context.len() && (#[trigger] context[i]).role == "tool"@
                    && context[i].tool_call_id == Some(id);
            assert(after[i] == context[i]);
        }
    }
}

// Entries and states of tasks.

/// An entry that belongs to no call.
pub open spec fn plain_entry(role: Seq<char>, content: Seq<char>, now: Timestamp) -> EntryView {
    EntryView { role, content, at: now, tool_call_id: None }
}

/// An entry that belongs to a call.
pub open spec fn call_entry(
    role: Seq<char>,
    content: Seq<char>,
    id: Seq<char>,
    now: Timestamp,
) -> EntryView {
    EntryView { role, content, at: now, tool_call_id: Some(id) }
}

/// An entry is added to a task; where there is no such task nothing happens.
pub open spec fn with_entry(
    tasks: Map<u128, TaskView>,
    id: u128,
    e: EntryView,
    now: Timestamp,
) -> Map<u128, TaskView> {
    if tasks.dom().contains(id) {
        tasks.insert(
            id,
            TaskView { context: tasks[id].context.push(e), updated_at: now, ..tasks[id] },
        )
    } else {
        tasks
    }
}

/// Adds an entry to a task, if there is such a task.
pub fn add_entry(
    store: &mut TaskStore,
    id: u128,
    role: &str,
    content: String,
    tool_call_id: Option<String>,
    now: Timestamp,
)
    ensures
        final(store)@ == with_entry(
            old(store)@,
            id,
            EntryView {
                role: role@,
                content: content@,
                at: now,
                tool_call_id: text::opt_text(tool_call_id),
            },
            now,
        ),
{
    let entry = ContextEntry { role: role.to_owned(), content, at: now, tool_call_id };
    let ghost view = entry@;
    let ghost before = store@;
    match store.append_context(id, entry, now) {
        Ok(_) => {},
        Err(_) => {},
    }
    assert(store@ =~= with_entry(before, id, view, now));
}

/// A note is added to a task.
pub open spec fn noted(
    tasks: Map<u128, TaskView>,
    id: u128,
    content: Seq<char>,
    now: Timestamp,
) -> Map<u128, TaskView> {
    with_entry(tasks, id, plain_entry("system"@, content, now), now)
}

/// Adds a note to a task. Its state stays as it is.
pub fn note(store: &mut TaskStore, id: u128, content: String, now: Timestamp)
    ensures
        final(store)@ == noted(old(store)@, id, content@, now),
{
    add_entry(store, id, SYSTEM_ROLE, content, None, now);
}

/// Work on a task came to nothing: the reason is noted, and the task fails if it
/// is still running.
pub open spec fn failed(
    tasks: Map<u128, TaskView>,
    id: u128,
    reason: Seq<char>,
    now: Timestamp,
) -> Map<u128, TaskView> {
    task_store::finished(
        noted(tasks, id, "Ошибка: "@ + reason, now),
        id,
        TaskStatus::Failed,
        now,
    )
}

/// Notes why work on a task came to nothing, and lets the task fail if it is
/// still running; says whether it was.
pub fn fail_task(store: &mut TaskStore, id: u128, reason: &str, now: Timestamp) -> (r: bool)
    ensures
        final(store)@ == failed(old(store)@, id, reason@, now),
        r == task_store::still_running(old(store)@, id),
{
    let mut content = String::from_str("Ошибка: ");
    content.append(reason);
    note(store, id, content, now);
    store.finish_if_still_running(id, TaskStatus::Failed, now)
}

/// What is put before a result that came too late.
pub const LATE_RESULT: &'static str = "Работа завершилась уже после того, как задача была отменена или изменена. Ответом задачи этот текст не является:\n\n";

/// Work on a task came to a result: where the task is still running the result
/// is its answer and the state is set; else the result is kept as a note.
pub open spec fn recorded(
    tasks: Map<u128, TaskView>,
    id: u128,
    status: TaskStatus,
    content: Seq<char>,
    now: Timestamp,
) -> Map<u128, TaskView> {
    with_entry(
        task_store::finished(tasks, id, status, now),
        id,
        if task_store::still_running(tasks, id) {
            plain_entry("assistant"@, content, now)
        } else {
            plain_entry("system"@, LATE_RESULT@ + content, now)
        },
        now,
    )
}

/// Enters the result of work on a task; says whether it became the answer.
pub fn record_outcome(
    store: &mut TaskStore,
    id: u128,
    status: TaskStatus,
    content: String,
    now: Timestamp,
) -> (r: bool)
    ensures
        final(store)@ == recorded(old(store)@, id, status, content@, now),
        r == task_store::still_running(old(store)@, id),
{
    let claimed: bool = store.finish_if_still_running(id, status, now);
    if claimed {
        add_entry(store, id, ASSISTANT_ROLE, content, None, now);
    } else {
        let mut late = String::from_str(LATE_RESULT);
        late.append(content.as_str());
        note(store, id, late, now);
    }
    claimed
}

/// The result of a task that somebody called off or laid aside is kept, but not
/// as an answer, and the state stays what it was.
pub proof fn law_late_result_is_no_answer(
    tasks: Map<u128, TaskView>,
    id: u128,
    status: TaskStatus,
    content: Seq<char>,
    now: Timestamp,
)
    requires
        tasks.dom().contains(id),
        tasks[id].status != TaskStatus::Running,
    ensures
        recorded(tasks, id, status, content, now)[id].status == tasks[id].status,
        recorded(tasks, id, status, content, now)[id].context == tasks[id].context.push(
            plain_entry("system"@, LATE_RESULT@ + content, now),
        ),
        failed(tasks, id, content, now)[id].status == tasks[id].status,
{
}

/// The result of a task that is still running becomes its answer.
pub proof fn law_timely_result_is_the_answer(
    tasks: Map<u128, TaskView>,
    id: u128,
    status: TaskStatus,
    content: Seq<char>,
    now: Timestamp,
)
    requires
        tasks.dom().contains(id),
        tasks[id].status == TaskStatus::Running,
    ensures
        recorded(tasks, id, status, content, now)[id].status == status,
        recorded(tasks, id, status, content, now)[id].context == tasks[id].context.push(
            plain_entry("assistant"@, content, now),
        ),
{
}

/// The members of an entry that holds a call.
pub open spec fn request_members(call: ToolCallView) -> Seq<(Seq<char>, Option<Seq<char>>)> {
    seq![("name"@, Some(call.name)), ("arguments"@, Some(call.arguments))]
}

/// The entry that holds a call the model asked for.
pub open spec fn request_entry(call: ToolCallView, now: Timestamp) -> EntryView {
    call_entry("tool_request"@, json::object_text(request_members(call)), call.id, now)
}

/// Enters a call that the model asked for. It is read back as it was: as the
/// message that asks for the call, and as the call that awaits a decision.
pub fn record_tool_request(store: &mut TaskStore, id: u128, call: &ToolCall, now: Timestamp)
    ensures
        final(store)@ == with_entry(old(store)@, id, request_entry(call@, now), now),
        request_of(request_entry(call@, now).content) == Some((call.name@, call.arguments@)),
        message_for(
            request_entry(call@, now),
            request_of(request_entry(call@, now).content),
        ) == model_backend::calls_message(seq![call@]),
        old(store)@.dom().contains(id) ==> pending_call(final(store)@[id].context) == Some(call@),
{
    let mut object: Vec<(String, Option<String>)> = Vec::new();
    object.push((String::from_str("name"), Some(call.name.clone())));
    object.push((String::from_str("arguments"), Some(call.arguments.clone())));
    let ghost wanted = request_members(call@);
    assert(json::members(object@) =~= wanted);
    proof {
        reveal_strlit("name");
        reveal_strlit("arguments");
        assert("name"@.len() != "arguments"@.len());
        assert(json::is_plain("name"@));
        assert(json::is_plain("arguments"@));
        lemma_roles_differ();
    }
    let content = json::write_object(&object);
    assert(object@[0].0@ == "name"@ && object@[1].0@ == "arguments"@);
    let ghost before = store@;
    add_entry(store, id, TOOL_REQUEST_ROLE, content, Some(call.id.clone()), now);
    proof {
        let e = request_entry(call@, now);
        if before.dom().contains(id) {
            let after = before[id].context.push(e);
            assert(after.last() == e);
            assert(!marked(after, after.len() - 1, "tool"@, call.id@));
        }
    }
}

/// A task waits for a decision on a call: what is to be decided is noted, and the
/// task is marked as waiting.
pub open spec fn parked(
    tasks: Map<u128, TaskView>,
    id: u128,
    server_name: Seq<char>,
    call: ToolCallView,
    now: Timestamp,
) -> Map<u128, TaskView> {
    task_store::status_set(
        noted(tasks, id, tool_gate::description(server_name, call), now),
        id,
        TaskStatus::WaitingForHuman,
        now,
    )
}

/// Lets a task wait for a decision on a call.
pub fn park_for_approval(
    store: &mut TaskStore,
    id: u128,
    server_name: &str,
    call: &ToolCall,
    now: Timestamp,
)
    ensures
        final(store)@ == parked(old(store)@, id, server_name@, call@, now),
{
    note(store, id, tool_gate::describe(server_name, call), now);
    store.set_status(id, TaskStatus::WaitingForHuman, now);
}

// Requests.

/// Why a request is refused.
#[derive(Debug)]
pub enum ApiError {
    /// There is no such task.
    NotFound,
    /// There is no call to decide on.
    NothingPending,
    /// The request is at fault.
    BadRequest(String),
    Internal(String),
}

impl ApiError {
    /// The status of the reply.
    pub open spec fn code(&self) -> u16 {
        match self {
            ApiError::NotFound => 404,
            ApiError::NothingPending => 404,
            ApiError::BadRequest(_) => 400,
            ApiError::Internal(_) => 500,
        }
    }

    /// The text of the reply.
    pub open spec fn words(&self) -> Seq<char> {
        match self {
            ApiError::NotFound => "задача не найдена"@,
            ApiError::NothingPending => "у задачи нет вызова инструмента, ожидающего решения"@,
            ApiError::BadRequest(m) => m@,
            ApiError::Internal(m) => m@,
        }
    }

    /// The status and the text of the reply.
    pub fn reply(&self) -> (r: (u16, String))
        ensures
            r.0 == self.code(),
            r.1@ == self.words(),
    {
        match self {
            ApiError::NotFound => (404, String::from_str("задача не найдена")),
            ApiError::NothingPending => (
                404,
                String::from_str("у задачи нет вызова инструмента, ожидающего решения"),
            ),
            ApiError::BadRequest(m) => (400, m.clone()),
            ApiError::Internal(m) => (500, m.clone()),
        }
    }
}

/// What is to be run for a task: its category, what was said so far, and whether
/// models that are used on request only may be used.
pub struct Launch {
    pub category: String,
    pub messages: Vec<Message>,
    pub allow_manual: bool,
}

impl Launch {
    /// Whether this is what is to be run for a task as it stands.
    pub open spec fn is_for(&self, task: TaskView, allow_manual: bool) -> bool {
        &&& self.category@ == task.category
        &&& model_backend::messages(self.messages@) == conversation(task.context)
        &&& self.allow_manual == allow_manual
    }
}

/// A flag that is off where it was not given.
pub open spec fn flag(value: Option<bool>) -> bool {
    value == Some(true)
}

fn launch(store: &TaskStore, id: u128, allow_manual: bool) -> (r: Option<Launch>)
    ensures
        r is Some <==> store@.dom().contains(id),
        r matches Some(l) ==> l.is_for(store@[id], allow_manual),
{
    match store.get(id) {
        None => None,
        Some(task) => Some(
            Launch {
                category: task.category.clone(),
                messages: context_to_messages(&task.context),
                allow_manual,
            },
        ),
    }
}

/// A task by its identifier.
pub fn get_task(store: &TaskStore, id: u128) -> (r: Result<&Task, ApiError>)
    ensures
        r is Ok <==> store@.dom().contains(id),
        r matches Ok(task) ==> task@ == store@[id],
        r matches Err(e) ==> e is NotFound,
{
    match store.get(id) {
        Some(task) => Ok(task),
        None => Err(ApiError::NotFound),
    }
}

/// The category of a new task: the one that was asked for, else the one that its
/// text speaks of.
pub open spec fn category_for(category: Option<String>, text: Seq<char>) -> Seq<char> {
    match category {
        Some(c) => c@,
        None => router::category_of(text::lowercase(text)).name(),
    }
}

/// Begins a task: it is entered as running with what the user said, and is to be
/// run. An identifier that is in use is an error.
pub fn create_task(
    store: &mut TaskStore,
    id: u128,
    text: String,
    category: Option<String>,
    allow_manual: Option<bool>,
    now: Timestamp,
) -> (r: Result<Launch, ApiError>)
    ensures
        r is Ok <==> !old(store)@.dom().contains(id),
        r matches Ok(l) ==> {
            &&& final(store)@ == old(store)@.insert(
                id,
                TaskView {
                    context: seq![plain_entry("user"@, text@, now)],
                    ..task_store::new_task(id, category_for(category, text@), now)
                },
            )
            &&& l.is_for(final(store)@[id], flag(allow_manual))
        },
        r matches Err(e) ==> final(store)@ == old(store)@ && (e matches ApiError::Internal(m) && m@
            == "не удалось вставить задачу в Task Store"@),
{
    let ghost before = store@;
    let category = match category {
        Some(c) => c,
        None => {
            let metadata = TaskMetadata::default();
            Router::classify(text.as_str(), &metadata).as_str().to_owned()
        },
    };
    match store.create(id, category.as_str(), now) {
        Ok(_) => {},
        Err(e) => {
            return Err(ApiError::Internal(e));
        },
    }
    let ghost said = text@;
    add_entry(store, id, USER_ROLE, text, None, now);
    assert(store@[id].context =~= seq![plain_entry("user"@, said, now)]);
    assert(store@ =~= before.insert(
        id,
        TaskView {
            context: seq![plain_entry("user"@, said, now)],
            ..task_store::new_task(id, category@, now)
        },
    ));
    match launch(store, id, allow_manual == Some(true)) {
        Some(l) => Ok(l),
        None => Err(ApiError::Internal(String::from_str("задача исчезла сразу после создания"))),
    }
}

/// A task is taken up again: what the user says is added, no answer is awaited in
/// Telegram any more, and the task is running.
pub open spec fn continued(task: TaskView, message: Option<String>, now: Timestamp) -> TaskView {
    TaskView {
        context: match message {
            Some(m) => task.context.push(plain_entry("user"@, m@, now)),
            None => task.context,
        },
        pending_telegram_message_id: None,
        status: TaskStatus::Running,
        updated_at: now,
        ..task
    }
}

/// Takes a task up again, whatever its state.
pub fn continue_task(
    store: &mut TaskStore,
    id: u128,
    message: Option<String>,
    allow_manual: Option<bool>,
    now: Timestamp,
) -> (r: Result<Launch, ApiError>)
    ensures
        r is Ok <==> old(store)@.dom().contains(id),
        r matches Ok(l) ==> {
            &&& final(store)@ == old(store)@.insert(id, continued(old(store)@[id], message, now))
            &&& l.is_for(final(store)@[id], flag(allow_manual))
        },
        r matches Err(e) ==> final(store)@ == old(store)@ && e is NotFound,
{
    let ghost before = store@;
    if store.get(id).is_none() {
        return Err(ApiError::NotFound);
    }
    match message {
        Some(m) => {
            add_entry(store, id, USER_ROLE, m, None, now);
        },
        None => {},
    }
    store.set_pending_telegram_message(id, None, now);
    store.set_status(id, TaskStatus::Running, now);
    assert(store@[id] =~= continued(before[id], message, now));
    assert(store@ =~= before.insert(id, continued(before[id], message, now)));
    match launch(store, id, allow_manual == Some(true)) {
        Some(l) => Ok(l),
        None => Err(ApiError::Internal(String::from_str("задача исчезла во время продолжения"))),
    }
}

fn order(store: &mut TaskStore, id: u128, status: TaskStatus, now: Timestamp) -> (r: Result<
    (),
    ApiError,
>)
    ensures
        r is Ok <==> old(store)@.dom().contains(id),
        final(store)@ == task_store::status_set(old(store)@, id, status, now),
        r matches Err(e) ==> e is NotFound,
{
    if store.get(id).is_none() {
        return Err(ApiError::NotFound);
    }
    store.set_status(id, status, now);
    Ok(())
}

/// Lays a task aside, whatever its state.
pub fn pause_task(store: &mut TaskStore, id: u128, now: Timestamp) -> (r: Result<(), ApiError>)
    ensures
        r is Ok <==> old(store)@.dom().contains(id),
        final(store)@ == task_store::status_set(old(store)@, id, TaskStatus::Paused, now),
        r matches Err(e) ==> e is NotFound,
{
    order(store, id, TaskStatus::Paused, now)
}

/// Calls a task off, whatever its state.
pub fn cancel_task(store: &mut TaskStore, id: u128, now: Timestamp) -> (r: Result<(), ApiError>)
    ensures
        r is Ok <==> old(store)@.dom().contains(id),
        final(store)@ == task_store::status_set(old(store)@, id, TaskStatus::Cancelled, now),
        r matches Err(e) ==> e is NotFound,
{
    order(store, id, TaskStatus::Cancelled, now)
}

/// What the model is told of a call that was refused.
pub open spec fn refusal(name: Seq<char>) -> Seq<char> {
    "ОТКАЗАНО ЧЕЛОВЕКОМ: вызов '"@ + name
        + "' не был исполнен. Не повторяй его; предложи другой способ или объясни, почему задача невыполнима без него."@
}

/// The entry that a decision on a call makes: a permission, or a result that says
/// that the call was refused.
pub open spec fn decision_entry(call: ToolCallView, approve: bool, now: Timestamp) -> EntryView {
    if approve {
        call_entry(
            "tool_approval"@,
            "человек подтвердил вызов '"@ + call.name + "'"@,
            call.id,
            now,
        )
    } else {
        call_entry("tool"@, refusal(call.name), call.id, now)
    }
}

/// The line of the journal on a call; nothing where the point in time is not one
/// that can be written.
pub open spec fn journal_line(
    id: u128,
    server: Seq<char>,
    call: ToolCallView,
    approved_by: Option<Approval>,
    outcome: Outcome,
    result: Seq<char>,
    now: Timestamp,
) -> Seq<char> {
    match formats::instant_text(now.seconds, now.nanos) {
        None => Seq::empty(),
        Some(at) => json::object_text(
            tool_gate::audit_members(
                at,
                formats::id_text(id),
                server,
                call,
                approved_by,
                outcome,
                result,
            ),
        ) + "\n"@,
    }
}

/// Adds the line on a call to the journal.
pub fn record_call(
    journal: &mut String,
    id: u128,
    server: &str,
    call: &ToolCall,
    approved_by: Option<Approval>,
    outcome: Outcome,
    result: &str,
    now: Timestamp,
)
    ensures
        final(journal)@ == old(journal)@ + journal_line(
            id,
            server@,
            call@,
            approved_by,
            outcome,
            result@,
            now,
        ),
{
    let name = formats::write_id(id);
    let ghost before = journal@;
    let written: bool = tool_gate::append_audit(
        journal,
        now,
        name.as_str(),
        server,
        call,
        approved_by,
        outcome,
        result,
    );
    assert(journal@ =~= before + journal_line(
        id,
        server@,
        call@,
        approved_by,
        outcome,
        result@,
        now,
    ));
}

/// Decides on the call that a task awaits a decision on, and lets the task go on:
/// after a yes the call may be executed, after a no the model learns of the refusal.
/// Only the pending call can be decided on; where there is none, that is an error
/// and nothing changes. A refusal goes into the journal.
///
/// A call awaits a decision when no result under its identifier stands behind it;
/// it is executed after a yes only when no result under its identifier stands
/// anywhere. So a call under an identifier that was used before can be decided on,
/// and a yes to it is entered, but it is not executed.
pub fn tool_decision(
    store: &mut TaskStore,
    journal: &mut String,
    id: u128,
    approve: bool,
    now: Timestamp,
) -> (r: Result<Launch, ApiError>)
    ensures
        r is Ok <==> old(store)@.dom().contains(id) && pending_call(old(store)@[id].context) is Some,
        r matches Ok(l) ==> {
            let call = pending_call(old(store)@[id].context)->0;
            &&& final(store)@ == old(store)@.insert(
                id,
                TaskView {
                    context: old(store)@[id].context.push(decision_entry(call, approve, now)),
                    status: TaskStatus::Running,
                    updated_at: now,
                    ..old(store)@[id]
                },
            )
            &&& final(journal)@ == if approve {
                old(journal)@
            } else {
                old(journal)@ + journal_line(
                    id,
                    "-"@,
                    call,
                    None,
                    Outcome::DeniedByHuman,
                    "отказ человека"@,
                    now,
                )
            }
            &&& l.is_for(final(store)@[id], false)
        },
        r matches Err(e) ==> final(store)@ == old(store)@ && final(journal)@ == old(journal)@
            && if old(store)@.dom().contains(id) {
            e is NothingPending
        } else {
            e is NotFound
        },
{
    let ghost before = store@;
    let pending = match store.get(id) {
        Some(task) => pending_tool_request(&task.context),
        None => {
            return Err(ApiError::NotFound);
        },
    };
    let call = match pending {
        Some(call) => call,
        None => {
            return Err(ApiError::NothingPending);
        },
    };
    if approve {
        let mut content = String::from_str("человек подтвердил вызов '");
        content.append(call.name.as_str());
        content.append("'");
        add_entry(store, id, TOOL_APPROVAL_ROLE, content, Some(call.id.clone()), now);
    } else {
        let mut content = String::from_str("ОТКАЗАНО ЧЕЛОВЕКОМ: вызов '");
        content.append(call.name.as_str());
        content.append(
            "' не был исполнен. Не повторяй его; предложи другой способ или объясни, почему задача невыполнима без него.",
        );
        add_entry(store, id, TOOL_ROLE, content, Some(call.id.clone()), now);
        record_call(
            journal,
            id,
            "-",
            &call,
            None,
            Outcome::DeniedByHuman,
            "отказ человека",
            now,
        );
    }
    store.set_status(id, TaskStatus::Running, now);
    assert(store@ =~= before.insert(
        id,
        TaskView {
            context: before[id].context.push(decision_entry(call@, approve, now)),
            status: TaskStatus::Running,
            updated_at: now,
            ..before[id]
        },
    ));
    match launch(store, id, false) {
        Some(l) => Ok(l),
        None => Err(ApiError::Internal(String::from_str("задача исчезла во время решения"))),
    }
}

/// A refusal settles the call: afterwards nothing awaits a decision, and the model
/// is told of the refusal as the result of that very call.
pub proof fn law_refusal_reaches_the_model(context: Seq<EntryView>, now: Timestamp)
    requires
        pending_call(context) is Some,
    ensures
        ({
            let call = pending_call(context)->0;
            let after = context.push(decision_entry(call, false, now));
            &&& pending_call(after) is None
            &&& conversation(after).last() == model_backend::result_message(
                call.id,
                refusal(call.name),
            )
        }),
{
    let call = pending_call(context)->0;
    let e = decision_entry(call, false, now);
    lemma_roles_differ();
    lemma_last_request(context);
    law_answered_call_is_settled(context, e);
}

/// What was said in a task is told to the model entry by entry, in its order: as said
/// by the user or by the model, as the result of a call, as a call that was asked for,
/// and, whatever else it is, as a note. The words are those of the entry.
pub proof fn law_the_model_is_told_every_entry(context: Seq<EntryView>, i: int)
    requires
        0 <= i < context.len(),
    ensures
        ({
            let e = context[i];
            let m = conversation(context)[i];
            &&& conversation(context).len() == context.len()
            &&& e.role == "user"@ ==> m.role == Role::User && m.content == e.content
                && m.tool_call_id is None && m.tool_calls.len() == 0
            &&& e.role == "assistant"@ ==> m.role == Role::Assistant && m.content == e.content
                && m.tool_call_id is None && m.tool_calls.len() == 0
            &&& e.role == "tool"@ && e.tool_call_id is Some ==> m.role == Role::Tool && m.content
                == e.content && m.tool_call_id == e.tool_call_id && m.tool_calls.len() == 0
            &&& e.role == "tool_request"@ && e.tool_call_id is Some && json::text_field(
                e.content,
                "name"@,
            ) is Some && json::text_field(e.content, "arguments"@) is Some ==> m.role
                == Role::Assistant && m.tool_call_id is None && m.tool_calls == seq![
                ToolCallView {
                    id: e.tool_call_id->0,
                    name: json::text_field(e.content, "name"@)->0,
                    arguments: json::text_field(e.content, "arguments"@)->0,
                },
            ]
            &&& e.role != "user"@ && e.role != "assistant"@ && e.role != "tool"@ && e.role
                != "tool_request"@ ==> m.role == Role::System && m.content == e.content
                && m.tool_call_id is None && m.tool_calls.len() == 0
            &&& (e.role == "tool"@ || e.role == "tool_request"@) && e.tool_call_id is None ==> m.role
                == Role::System && m.content == e.content
        }),
{
    lemma_roles_differ();
}

/// Whether a call stands at a place of a task that no other call comes behind.
pub open spec fn is_last_call(context: Seq<EntryView>, k: int) -> bool {
    &&& 0 <= k < context.len()
    &&& context[k].role == "tool_request"@
    &&& forall|i: int| k < i < context.len() ==> (#[trigger] context[i]).role != "tool_request"@
}

proof fn lemma_last_request_is(context: Seq<EntryView>, k: int)
    requires
        is_last_call(context, k),
    ensures
        last_request(context) == k,
    decreases context.len(),
{
    lemma_last_request(context);
    let l = last_request(context);
    if l > k {
        assert(context[l].role != "tool_request"@);
    }
    if l < k {
        assert(context[k].role != "tool_request"@);
    }
}

/// The call that awaits a decision is the last one that was asked for, as it was
/// written down, as long as no result of it stands behind it. An earlier call never
/// awaits one, and without a call nothing does.
pub proof fn law_the_last_call_awaits_a_decision(context: Seq<EntryView>, k: int)
    ensures
        is_last_call(context, k) ==> {
            let id = context[k].tool_call_id;
            let name = json::text_field(context[k].content, "name"@);
            let arguments = json::text_field(context[k].content, "arguments"@);
            let answered = exists|i: int|
                k < i < context.len() && (#[trigger] context[i]).role == "tool"@
                    && context[i].tool_call_id == id;
            &&& pending_call(context) is Some <==> id is Some && !answered && name is Some
                && arguments is Some
            &&& pending_call(context) matches Some(c) ==> Some(c.id) == id && Some(c.name) == name
                && Some(c.arguments) == arguments
        },
        (forall|i: int| 0 <= i < context.len() ==> (#[trigger] context[i]).role != "tool_request"@)
            ==> pending_call(context) is None,
{
    lemma_roles_differ();
    lemma_last_request(context);
    if is_last_call(context, k) {
        lemma_last_request_is(context, k);
        let id = context[k].tool_call_id;
        if id is Some {
            if marked(context, k, "tool"@, id->0) {
                let i = choose|i: int|
                    k <= i < context.len() && (#[trigger] context[i]).role == "tool"@
                        && context[i].tool_call_id == Some(id->0);
                assert(i != k);
            }
            if exists|i: int|
                k < i < context.len() && (#[trigger] context[i]).role == "tool"@
                    && context[i].tool_call_id == id {
                let i = choose|i: int|
                    k < i < context.len() && (#[trigger] context[i]).role == "tool"@
                        && context[i].tool_call_id == id;
                assert(marked(context, k, "tool"@, id->0));
            }
        }
    }
}

/// A call is permitted exactly if it awaits a decision, a permission with its
/// identifier was entered, and no result with its identifier was: a permission of
/// another call is none for it.
pub proof fn law_a_permission_is_for_one_call(context: Seq<EntryView>)
    ensures
        approved_call(context) is Some ==> approved_call(context) == pending_call(context),
        pending_call(context) matches Some(call) ==> (approved_call(context) is Some <==> (exists|
            i: int,
        |
            0 <= i < context.len() && (#[trigger] context[i]).role == "tool_approval"@
                && context[i].tool_call_id == Some(call.id)) && (forall|i: int|
            0 <= i < context.len() && (#[trigger] context[i]).role == "tool"@
                ==> context[i].tool_call_id != Some(call.id))),
{
}

/// An entry goes to the end of its own task, whose state stays; no other task changes,
/// and an unknown one is not made.
pub proof fn law_an_entry_goes_to_the_end_of_its_task(
    tasks: Map<u128, TaskView>,
    id: u128,
    e: EntryView,
    other: u128,
    now: Timestamp,
)
    ensures
        with_entry(tasks, id, e, now).dom() == tasks.dom(),
        tasks.dom().contains(id) ==> {
            let t = with_entry(tasks, id, e, now)[id];
            &&& t.context.len() == tasks[id].context.len() + 1
            &&& t.context.last() == e
            &&& t.context.drop_last() == tasks[id].context
            &&& t.updated_at == now
            &&& t.status == tasks[id].status
            &&& t.category == tasks[id].category
            &&& t.created_at == tasks[id].created_at
            &&& t.pending_telegram_message_id == tasks[id].pending_telegram_message_id
        },
        other != id && tasks.dom().contains(other) ==> with_entry(tasks, id, e, now)[other]
            == tasks[other],
{
    assert(with_entry(tasks, id, e, now).dom() =~= tasks.dom());
    if tasks.dom().contains(id) {
        assert(with_entry(tasks, id, e, now)[id].context.drop_last() =~= tasks[id].context);
    }
}

/// A task that came to nothing while it was running has failed, and a note at its end
/// tells the reason.
pub proof fn law_a_failure_is_told(
    tasks: Map<u128, TaskView>,
    id: u128,
    reason: Seq<char>,
    now: Timestamp,
)
    requires
        tasks.dom().contains(id),
    ensures
        ({
            let t = failed(tasks, id, reason, now)[id];
            &&& tasks[id].status == TaskStatus::Running ==> t.status == TaskStatus::Failed
            &&& tasks[id].status != TaskStatus::Running ==> t.status == tasks[id].status
            &&& t.context.len() == tasks[id].context.len() + 1
            &&& t.context.last().role == "system"@
            &&& t.context.last().content == "Ошибка: "@ + reason
        }),
{
}

/// What the user says when a task is taken up again is its last entry, and the task
/// runs; without a word from the user nothing is added. No answer is awaited in
/// Telegram any more, and what was said before stays.
pub proof fn law_a_task_is_taken_up_again(task: TaskView, message: Option<String>, now: Timestamp)
    ensures
        ({
            let t = continued(task, message, now);
            &&& t.status == TaskStatus::Running
            &&& t.pending_telegram_message_id is None
            &&& t.updated_at == now
            &&& t.id == task.id
            &&& t.category == task.category
            &&& t.created_at == task.created_at
            &&& message matches Some(m) ==> {
                &&& t.context.len() == task.context.len() + 1
                &&& t.context.drop_last() == task.context
                &&& t.context.last().role == "user"@
                &&& t.context.last().content == m@
                &&& t.context.last().at == now
                &&& t.context.last().tool_call_id is None
            }
            &&& message is None ==> t.context == task.context
        }),
{
    assert(continued(task, message, now).context.drop_last() =~= task.context || message is None);
}

/// A new task has the category that was asked for, and, where none was, the one that
/// the router finds in its text with nothing else known of the task.
pub proof fn law_a_new_task_has_its_category(
    category: Option<String>,
    said: Seq<char>,
    metadata: TaskMetadata,
)
    requires
        metadata.agent_category is None,
        metadata.file_count == 0,
        metadata.total_lines == 0,
    ensures
        category matches Some(c) ==> category_for(category, said) == c@,
        category is None ==> category_for(category, said) == router::classification(
            text::lowercase(said),
            metadata,
        ).name(),
{
}

/// A yes to the call that awaits a decision permits that call and no other, unless a
/// result with its identifier was entered before; a no settles it with a result that
/// says so and names the tool. Either way the entry belongs to that call.
pub proof fn law_a_decision_is_on_the_pending_call(context: Seq<EntryView>, now: Timestamp)
    requires
        pending_call(context) is Some,
    ensures
        ({
            let call = pending_call(context)->0;
            let yes = decision_entry(call, true, now);
            let no = decision_entry(call, false, now);
            &&& yes.tool_call_id == Some(call.id)
            &&& no.tool_call_id == Some(call.id)
            &&& yes.at == now
            &&& no.at == now
            &&& yes.role == "tool_approval"@
            &&& no.role == "tool"@
            &&& (forall|i: int|
                0 <= i < context.len() && (#[trigger] context[i]).role == "tool"@
                    ==> context[i].tool_call_id != Some(call.id)) ==> approved_call(
                context.push(yes),
            ) == Some(call)
            &&& approved_call(context.push(no)) is None
            &&& pending_call(context.push(no)) is None
            &&& "ОТКАЗАНО ЧЕЛОВЕКОМ: вызов '"@.is_prefix_of(no.content)
            &&& text::occurs(call.name, no.content)
            &&& text::occurs(call.name, yes.content)
        }),
{
    let call = pending_call(context)->0;
    let yes = decision_entry(call, true, now);
    let no = decision_entry(call, false, now);
    lemma_roles_differ();
    lemma_last_request(context);
    law_permission_is_for_the_pending_call(context, yes);
    law_answered_call_is_settled(context, no);
    let head = "ОТКАЗАНО ЧЕЛОВЕКОМ: вызов '"@;
    assert(head =~= no.content.subrange(0, head.len() as int));
    let at = head.len() as int;
    assert(call.name =~= no.content.skip(at).subrange(0, call.name.len() as int));
    assert(call.name.is_prefix_of(no.content.skip(at)));
    let at2 = "человек подтвердил вызов '"@.len() as int;
    assert(call.name =~= yes.content.skip(at2).subrange(0, call.name.len() as int));
    assert(call.name.is_prefix_of(yes.content.skip(at2)));
}

/// A call that nobody permitted waits: the task is marked as waiting, and its last
/// entry is a note that shows the server, the tool and the arguments, whole.
pub proof fn law_a_waiting_task_shows_the_call(
    tasks: Map<u128, TaskView>,
    id: u128,
    server_name: Seq<char>,
    call: ToolCallView,
    other: u128,
    now: Timestamp,
)
    requires
        tasks.dom().contains(id),
    ensures
        ({
            let t = parked(tasks, id, server_name, call, now)[id];
            &&& t.status == TaskStatus::WaitingForHuman
            &&& t.context.len() == tasks[id].context.len() + 1
            &&& t.context.last().role == "system"@
            &&& t.context.last().tool_call_id is None
            &&& text::occurs(server_name, t.context.last().content)
            &&& text::occurs(call.name, t.context.last().content)
            &&& text::occurs(call.arguments, t.context.last().content)
        }),
        other != id && tasks.dom().contains(other) ==> parked(
            tasks,
            id,
            server_name,
            call,
            now,
        )[other] == tasks[other],
{
    tool_gate::law_a_decision_is_made_on_the_whole_call(server_name, call);
}

/// A line of the journal holds one record, which tells the time, the task, the server,
/// the call, who permitted it, how it ended and what came of it.
pub proof fn law_a_line_of_the_journal_tells_everything(
    id: u128,
    server: Seq<char>,
    call: ToolCallView,
    approved_by: Option<Approval>,
    outcome: Outcome,
    result: Seq<char>,
    now: Timestamp,
)
    ensures
        match formats::instant_text(now.seconds, now.nanos) {
            Some(at) => journal_line(id, server, call, approved_by, outcome, result, now)
                == json::object_text(
                seq![
                    ("at"@, Some(at)),
                    ("task"@, Some(formats::id_text(id))),
                    ("server"@, Some(server)),
                    ("tool"@, Some(call.name)),
                    ("tool_call_id"@, Some(call.id)),
                    ("arguments"@, Some(call.arguments)),
                    (
                        "approved_by"@,
                        match approved_by {
                            Some(Approval::Allowlist) => Some("allowlist"@),
                            Some(Approval::Human) => Some("human"@),
                            None => None,
                        },
                    ),
                    (
                        "outcome"@,
                        Some(
                            match outcome {
                                Outcome::Executed => "executed"@,
                                Outcome::Failed => "failed"@,
                                Outcome::DeniedByHuman => "denied_by_human"@,
                            },
                        ),
                    ),
                    ("result"@, Some(result)),
                ],
            ) + "\n"@,
            None => journal_line(id, server, call, approved_by, outcome, result, now).len() == 0,
        },
{
    match formats::instant_text(now.seconds, now.nanos) {
        Some(at) => {
            assert(tool_gate::audit_members(
                at,
                formats::id_text(id),
                server,
                call,
                approved_by,
                outcome,
                result,
            ) =~= seq![
                ("at"@, Some(at)),
                ("task"@, Some(formats::id_text(id))),
                ("server"@, Some(server)),
                ("tool"@, Some(call.name)),
                ("tool_call_id"@, Some(call.id)),
                ("arguments"@, Some(call.arguments)),
                (
                    "approved_by"@,
                    match approved_by {
                        Some(Approval::Allowlist) => Some("allowlist"@),
                        Some(Approval::Human) => Some("human"@),
                        None => None,
                    },
                ),
                (
                    "outcome"@,
                    Some(
                        match outcome {
                            Outcome::Executed => "executed"@,
                            Outcome::Failed => "failed"@,
                            Outcome::DeniedByHuman => "denied_by_human"@,
                        },
                    ),
                ),
                ("result"@, Some(result)),
            ]);
        },
        None => {},
    }
}

/// What cannot be found is answered with 404, a request at fault with 400, and
/// anything else with 500; a request at fault and an inner error are told in their own
/// words.
pub proof fn law_an_error_has_its_status(e: ApiError)
    ensures
        e.code() == 404 <==> e is NotFound || e is NothingPending,
        e.code() == 400 <==> e is BadRequest,
        e.code() == 500 <==> e is Internal,
        e matches ApiError::BadRequest(m) ==> e.words() == m@,
        e matches ApiError::Internal(m) ==> e.words() == m@,
{
}

/// What is to be run for a task is the task as it stands: its category and all that was
/// said in it; models that are used on request only are used if, and only if, the
/// request says so.
pub proof fn law_what_is_run_is_the_task(l: Launch, task: TaskView, allow_manual: Option<bool>, i: int)
    requires
        l.is_for(task, flag(allow_manual)),
    ensures
        l.category@ == task.category,
        l.messages@.len() == task.context.len(),
        0 <= i < task.context.len() ==> l.messages@[i]@ == message_for(
            task.context[i],
            request_of(task.context[i].content),
        ),
        l.allow_manual <==> (allow_manual matches Some(b) && b),
{
    assert(model_backend::messages(l.messages@).len() == l.messages@.len());
    if 0 <= i < task.context.len() {
        assert(model_backend::messages(l.messages@)[i] == l.messages@[i]@);
    }
}

} // verus!
