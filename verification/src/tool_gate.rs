//! Permission for tool calls: no call is executed without permission, and every
//! call that is handed to the tool server, and every refusal, leaves a line in a
//! journal.
//!
//! A call is executed through an [`ApprovedToolCall`]. There are two ways to
//! get one: the tool's name is on the list of tools that need no asking, or
//! somebody said yes to this call.

use crate::clock::Timestamp;
use crate::formats;
use crate::json;
use crate::model_backend::{ToolCall, ToolCallView};
use crate::text;
use vstd::prelude::*;

verus! {

/// Who permitted a call.
#[derive(Debug, Clone, Copy, PartialEq, Eq, Structural)]
pub enum Approval {
    /// The tool is on the list of tools that need no asking.
    Allowlist,
    /// Somebody said yes to this call.
    Human,
}

impl Approval {
    /// The word of the journal.
    pub open spec fn word(self) -> Seq<char> {
        match self {
            Approval::Allowlist => "allowlist"@,
            Approval::Human => "human"@,
        }
    }

    /// The word of the journal.
    pub fn as_str(self) -> (r: &'static str)
        ensures
            r@ == self.word(),
    {
        match self {
            Approval::Allowlist => "allowlist",
            Approval::Human => "human",
        }
    }
}

/// A call that may be executed.
pub struct ApprovedToolCall {
    call: ToolCall,
    approved_by: Approval,
}

impl ApprovedToolCall {
    /// The call.
    pub closed spec fn permitted(&self) -> ToolCallView {
        self.call@
    }

    /// Who permitted it.
    pub closed spec fn by(&self) -> Approval {
        self.approved_by
    }

    /// The call.
    pub fn call(&self) -> (r: &ToolCall)
        ensures
            r@ == self.permitted(),
    {
        &self.call
    }

    /// Who permitted it.
    pub fn approved_by(&self) -> (r: Approval)
        ensures
            r == self.by(),
    {
        self.approved_by
    }
}

/// What becomes of a call that the model asked for.
pub enum Decision {
    /// It may be executed.
    Approved(ApprovedToolCall),
    /// Somebody has to be asked.
    NeedsHuman(ToolCall),
}

/// Whether a name is on a list, letter for letter.
pub open spec fn listed(auto_approve: Seq<Seq<char>>, name: Seq<char>) -> bool {
    auto_approve.contains(name)
}

/// Decides on a call: it may be executed exactly if the tool's name is on the
/// list, letter for letter.
pub fn decide(auto_approve: &Vec<String>, call: ToolCall) -> (r: Decision)
    ensures
        match r {
            Decision::Approved(a) => listed(text::texts(auto_approve@), call.name@) && a.permitted()
                == call@ && a.by() == Approval::Allowlist,
            Decision::NeedsHuman(c) => !listed(text::texts(auto_approve@), call.name@) && c == call,
        },
{
    let ghost names = text::texts(auto_approve@);
    let mut i: usize = 0;
    while i < auto_approve.len()
        invariant
            i <= auto_approve@.len(),
            names == text::texts(auto_approve@),
            forall|k: int| 0 <= k < i ==> #[trigger] names[k] != call.name@,
        decreases auto_approve@.len() - i,
    {
        assert(names[i as int] == auto_approve@[i as int]@);
        if text::same(auto_approve[i].as_str(), call.name.as_str()) {
            assert(names.contains(names[i as int]));
            return Decision::Approved(
                ApprovedToolCall { call, approved_by: Approval::Allowlist },
            );
        }
        i = i + 1;
    }
    Decision::NeedsHuman(call)
}

/// Somebody said yes to a call.
pub fn approve_by_human(call: ToolCall) -> (r: ApprovedToolCall)
    ensures
        r.permitted() == call@,
        r.by() == Approval::Human,
{
    ApprovedToolCall { call, approved_by: Approval::Human }
}

/// With an empty list every call has to be asked about.
pub proof fn law_empty_list_asks_about_everything(name: Seq<char>)
    ensures
        !listed(Seq::empty(), name),
{
}

/// What is shown before a decision.
pub open spec fn description(server: Seq<char>, call: ToolCallView) -> Seq<char> {
    "Требуется подтверждение вызова инструмента.\nСервер: "@ + server + "\nИнструмент: "@ + call.name
        + "\nАргументы ("@ + text::decimal(call.arguments.len()) + " символов):\n"@ + call.arguments
        + "\n\nПодтвердить: POST /tasks/<id>/tool-decision {\"approve\": true}\nОтказать:    POST /tasks/<id>/tool-decision {\"approve\": false}"@
}

/// What is shown before a decision: the server, the tool, and the arguments,
/// whole and with their length.
pub fn describe(server: &str, call: &ToolCall) -> (r: String)
    ensures
        r@ == description(server@, call@),
        text::occurs(call.arguments@, r@),
{
    let mut s = String::from_str("Требуется подтверждение вызова инструмента.\nСервер: ");
    s.append(server);
    s.append("\nИнструмент: ");
    s.append(call.name.as_str());
    s.append("\nАргументы (");
    let n: usize = call.arguments.as_str().unicode_len();
    let length = text::show(n as u64);
    s.append(length.as_str());
    s.append(" символов):\n");
    let ghost before = s@;
    s.append(call.arguments.as_str());
    s.append(
        "\n\nПодтвердить: POST /tasks/<id>/tool-decision {\"approve\": true}\nОтказать:    POST /tasks/<id>/tool-decision {\"approve\": false}",
    );
    proof {
        let tail = s@.skip(before.len() as int);
        assert(call.arguments@ =~= tail.subrange(0, call.arguments@.len() as int));
    }
    s
}

/// Where the journal of tool calls is kept.
pub const AUDIT_LOG_PATH: &'static str = ".kaic/tool-audit.log";

/// How a call ended.
#[derive(Debug, Clone, Copy, PartialEq, Eq, Structural)]
pub enum Outcome {
    Executed,
    Failed,
    /// Somebody said no: the call was not made.
    DeniedByHuman,
}

impl Outcome {
    /// The word of the journal.
    pub open spec fn word(self) -> Seq<char> {
        match self {
            Outcome::Executed => "executed"@,
            Outcome::Failed => "failed"@,
            Outcome::DeniedByHuman => "denied_by_human"@,
        }
    }

    /// The word of the journal.
    pub fn as_str(self) -> (r: &'static str)
        ensures
            r@ == self.word(),
    {
        match self {
            Outcome::Executed => "executed",
            Outcome::Failed => "failed",
            Outcome::DeniedByHuman => "denied_by_human",
        }
    }
}

/// The members of a record of the journal.
pub open spec fn audit_members(
    at: Seq<char>,
    task_id: Seq<char>,
    server: Seq<char>,
    call: ToolCallView,
    approved_by: Option<Approval>,
    outcome: Outcome,
    result: Seq<char>,
) -> Seq<(Seq<char>, Option<Seq<char>>)> {
    seq![
        ("at"@, Some(at)),
        ("task"@, Some(task_id)),
        ("server"@, Some(server)),
        ("tool"@, Some(call.name)),
        ("tool_call_id"@, Some(call.id)),
        ("arguments"@, Some(call.arguments)),
        (
            "approved_by"@,
            match approved_by {
                Some(a) => Some(a.word()),
                None => None,
            },
        ),
        ("outcome"@, Some(outcome.word())),
        ("result"@, Some(result)),
    ]
}

/// Whether every member of a record is read back from a line, and the line is
/// one.
pub open spec fn reads_back(line: Seq<char>, members: Seq<(Seq<char>, Option<Seq<char>>)>) -> bool {
    &&& forall|i: int|
        0 <= i < members.len() ==> json::text_field(line, (#[trigger] members[i]).0) == members[i].1
    &&& forall|i: int| 0 <= i < line.len() ==> #[trigger] line[i] != '\n'
}

proof fn lemma_audit_keys(
    at: Seq<char>,
    task_id: Seq<char>,
    server: Seq<char>,
    call: ToolCallView,
    approved_by: Option<Approval>,
    outcome: Outcome,
    result: Seq<char>,
)
    ensures
        json::keys_differ(audit_members(at, task_id, server, call, approved_by, outcome, result)),
        json::keys_plain(audit_members(at, task_id, server, call, approved_by, outcome, result)),
{
    reveal_strlit("at");
    reveal_strlit("task");
    reveal_strlit("server");
    reveal_strlit("tool");
    reveal_strlit("tool_call_id");
    reveal_strlit("arguments");
    reveal_strlit("approved_by");
    reveal_strlit("outcome");
    reveal_strlit("result");
    let m = audit_members(at, task_id, server, call, approved_by, outcome, result);
    assert forall|i: int, j: int| 0 <= i < j < m.len() implies (#[trigger] m[i]).0 != (
    #[trigger] m[j]).0 by {
        assert(m[i].0.len() != m[j].0.len() || m[i].0[0] != m[j].0[0] || m[i].0[1] != m[j].0[1]);
    }
}

fn member(key: &str, value: &str) -> (r: (String, Option<String>))
    ensures
        r.0@ == key@,
        text::opt_text(r.1) == Some(value@),
{
    (key.to_owned(), Some(value.to_owned()))
}

/// Adds a record to the text of the journal, in a line of its own; what stands
/// there already stays. Refusals are recorded as executions are. Nothing is
/// added where the point in time is not one that can be written.
pub fn append_audit(
    log: &mut String,
    at: Timestamp,
    task_id: &str,
    server: &str,
    call: &ToolCall,
    approved_by: Option<Approval>,
    outcome: Outcome,
    result: &str,
) -> (r: bool)
    ensures
        r == formats::instant_text(at.seconds, at.nanos) is Some,
        !r ==> final(log)@ == old(log)@,
        r ==> {
            let record = audit_members(
                formats::instant_text(at.seconds, at.nanos)->0,
                task_id@,
                server@,
                call@,
                approved_by,
                outcome,
                result@,
            );
            &&& final(log)@ == old(log)@ + json::object_text(record) + "\n"@
            &&& reads_back(json::object_text(record), record)
        },
{
    let written = match formats::write_instant(at) {
        Some(t) => t,
        None => {
            return false;
        },
    };
    let mut record: Vec<(String, Option<String>)> = Vec::new();
    record.push(member("at", written.as_str()));
    record.push(member("task", task_id));
    record.push(member("server", server));
    record.push(member("tool", call.name.as_str()));
    record.push(member("tool_call_id", call.id.as_str()));
    record.push(member("arguments", call.arguments.as_str()));
    let approver: Option<String> = match approved_by {
        Some(a) => Some(a.as_str().to_owned()),
        None => None,
    };
    record.push((String::from_str("approved_by"), approver));
    record.push(member("outcome", outcome.as_str()));
    record.push(member("result", result));
    let ghost wanted = audit_members(
        written@,
        task_id@,
        server@,
        call@,
        approved_by,
        outcome,
        result@,
    );
    assert(json::members(record@) =~= wanted);
    proof {
        lemma_audit_keys(written@, task_id@, server@, call@, approved_by, outcome, result@);
    }
    let line = json::write_object(&record);
    assert(reads_back(line@, wanted)) by {
        assert forall|i: int| 0 <= i < wanted.len() implies json::text_field(
            line@,
            (#[trigger] wanted[i]).0,
        ) == wanted[i].1 by {
            assert(wanted[i] == json::members(record@)[i]);
            assert(record@[i].0@ == wanted[i].0);
        }
    }
    log.append(line.as_str());
    log.append("\n");
    true
}

/// A name is on a list exactly if one of the names of the list is that name, letter for
/// letter.
pub proof fn law_a_list_is_read_letter_for_letter(list: Seq<Seq<char>>, name: Seq<char>)
    ensures
        listed(list, name) <==> exists|i: int| 0 <= i < list.len() && #[trigger] list[i] == name,
{
}

/// Who decides on a call is shown the whole of it: the server, the tool, how long the
/// arguments are, and the arguments themselves.
pub proof fn law_a_decision_is_made_on_the_whole_call(server: Seq<char>, call: ToolCallView)
    ensures
        text::occurs("Сервер: "@ + server + "\n"@, description(server, call)),
        text::occurs("Инструмент: "@ + call.name + "\n"@, description(server, call)),
        text::occurs(
            "Аргументы ("@ + text::decimal(call.arguments.len()) + " символов):\n"@
                + call.arguments,
            description(server, call),
        ),
        text::occurs(server, description(server, call)),
        text::occurs(call.name, description(server, call)),
        text::occurs(call.arguments, description(server, call)),
{
    reveal_strlit("Требуется подтверждение вызова инструмента.\nСервер: ");
    reveal_strlit("Требуется подтверждение вызова инструмента.\n");
    reveal_strlit("Сервер: ");
    reveal_strlit("\nИнструмент: ");
    reveal_strlit("Инструмент: ");
    reveal_strlit("\nАргументы (");
    reveal_strlit("Аргументы (");
    reveal_strlit("\n");
    let d = description(server, call);
    let first = "Требуется подтверждение вызова инструмента.\n"@;
    let a = first + "Сервер: "@;
    let rest2 = "Аргументы ("@ + text::decimal(call.arguments.len()) + " символов):\n"@
        + call.arguments
        + "\n\nПодтвердить: POST /tasks/<id>/tool-decision {\"approve\": true}\nОтказать:    POST /tasks/<id>/tool-decision {\"approve\": false}"@;
    let rest1 = "Инструмент: "@ + call.name + "\n"@ + rest2;
    assert(first + "Сервер: "@ =~= "Требуется подтверждение вызова инструмента.\nСервер: "@);
    assert("\n"@ + "Инструмент: "@ =~= "\nИнструмент: "@);
    assert("\n"@ + "Аргументы ("@ =~= "\nАргументы ("@);
    assert(d =~= first + ("Сервер: "@ + server + "\n"@) + rest1);
    text::lemma_occurs_between(first, "Сервер: "@ + server + "\n"@, rest1);
    let b = first + ("Сервер: "@ + server + "\n"@);
    assert(d =~= b + ("Инструмент: "@ + call.name + "\n"@) + rest2);
    text::lemma_occurs_between(b, "Инструмент: "@ + call.name + "\n"@, rest2);
    let c = b + ("Инструмент: "@ + call.name + "\n"@);
    let args = "Аргументы ("@ + text::decimal(call.arguments.len()) + " символов):\n"@
        + call.arguments;
    let end = "\n\nПодтвердить: POST /tasks/<id>/tool-decision {\"approve\": true}\nОтказать:    POST /tasks/<id>/tool-decision {\"approve\": false}"@;
    assert(d =~= c + args + end);
    text::lemma_occurs_between(c, args, end);
    assert(d =~= a + server + ("\n"@ + rest1));
    text::lemma_occurs_between(a, server, "\n"@ + rest1);
    assert(d =~= (b + "Инструмент: "@) + call.name + ("\n"@ + rest2));
    text::lemma_occurs_between(b + "Инструмент: "@, call.name, "\n"@ + rest2);
    let before = c + ("Аргументы ("@ + text::decimal(call.arguments.len()) + " символов):\n"@);
    assert(d =~= before + call.arguments + end);
    text::lemma_occurs_between(before, call.arguments, end);
}

} // verus!
