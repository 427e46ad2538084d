//! Tasks: their state, what was said in them so far, and how they are kept.

use crate::clock::Timestamp;
use crate::formats;
use crate::text;
use vstd::prelude::*;

verus! {

/// The state of a task.
#[derive(Debug, Clone, Copy, PartialEq, Eq, Structural)]
pub enum TaskStatus {
    /// Being worked on.
    Running,
    /// A stage is finished and somebody's decision is awaited.
    WaitingForHuman,
    /// Laid aside, not finished.
    Paused,
    Done,
    Failed,
    /// Called off by the user.
    Cancelled,
}

impl TaskStatus {
    /// The word by which the state is stored.
    pub open spec fn word(self) -> Seq<char> {
        match self {
            TaskStatus::Running => "running"@,
            TaskStatus::WaitingForHuman => "waiting_for_human"@,
            TaskStatus::Paused => "paused"@,
            TaskStatus::Done => "done"@,
            TaskStatus::Failed => "failed"@,
            TaskStatus::Cancelled => "cancelled"@,
        }
    }

    /// The word by which the state is stored.
    pub fn as_str(self) -> (r: &'static str)
        ensures
            r@ == self.word(),
    {
        match self {
            TaskStatus::Running => "running",
            TaskStatus::WaitingForHuman => "waiting_for_human",
            TaskStatus::Paused => "paused",
            TaskStatus::Done => "done",
            TaskStatus::Failed => "failed",
            TaskStatus::Cancelled => "cancelled",
        }
    }

    /// The state that a stored word stands for. Any other word is an error.
    pub fn from_str(s: &str) -> (r: Result<TaskStatus, String>)
        ensures
            r is Ok <==> exists|st: TaskStatus| #[trigger] st.word() == s@,
            forall|st: TaskStatus| r == Ok::<TaskStatus, String>(st) <==> #[trigger] st.word() == s@,
            r matches Err(e) ==> e@ == unknown_status(s@),
    {
        proof {
            law_words_differ();
        }
        assert(TaskStatus::Running.word() == "running"@);
        if text::same(s, "running") {
            Ok(TaskStatus::Running)
        } else if text::same(s, "waiting_for_human") {
            assert(TaskStatus::WaitingForHuman.word() == s@);
            Ok(TaskStatus::WaitingForHuman)
        } else if text::same(s, "paused") {
            assert(TaskStatus::Paused.word() == s@);
            Ok(TaskStatus::Paused)
        } else if text::same(s, "done") {
            assert(TaskStatus::Done.word() == s@);
            Ok(TaskStatus::Done)
        } else if text::same(s, "failed") {
            assert(TaskStatus::Failed.word() == s@);
            Ok(TaskStatus::Failed)
        } else if text::same(s, "cancelled") {
            assert(TaskStatus::Cancelled.word() == s@);
            Ok(TaskStatus::Cancelled)
        } else {
            let mut e = String::from_str("неизвестный статус задачи в базе: '");
            e.append(s);
            e.append("'");
            Err(e)
        }
    }
}

/// What is said of a word that stands for no state.
pub open spec fn unknown_status(s: Seq<char>) -> Seq<char> {
    "неизвестный статус задачи в базе: '"@ + s + "'"@
}

/// Different states are stored by different words, so a stored state is read
/// back as it was.
pub proof fn law_words_differ()
    ensures
        forall|a: TaskStatus, b: TaskStatus| #[trigger] a.word() == #[trigger] b.word() ==> a == b,
{
    reveal_strlit("running");
    reveal_strlit("waiting_for_human");
    reveal_strlit("paused");
    reveal_strlit("done");
    reveal_strlit("failed");
    reveal_strlit("cancelled");
    assert forall|a: TaskStatus, b: TaskStatus| #[trigger] a.word() == #[trigger] b.word() implies a
        == b by {
        assert(a.word().len() == b.word().len());
        assert(a.word()[0] == b.word()[0]);
    }
}

/// One step of a task: who said what, when, and, of a tool's result, to which
/// call.
#[derive(Debug, Clone)]
pub struct ContextEntry {
    pub role: String,
    pub content: String,
    pub at: Timestamp,
    pub tool_call_id: Option<String>,
}

/// An entry by its characters.
#[verifier::ext_equal]
pub struct EntryView {
    pub role: Seq<char>,
    pub content: Seq<char>,
    pub at: Timestamp,
    pub tool_call_id: Option<Seq<char>>,
}

impl View for ContextEntry {
    type V = EntryView;

    open spec fn view(&self) -> EntryView {
        EntryView {
            role: self.role@,
            content: self.content@,
            at: self.at,
            tool_call_id: text::opt_text(self.tool_call_id),
        }
    }
}

/// The views of several entries.
pub open spec fn entries(v: Seq<ContextEntry>) -> Seq<EntryView> {
    v.map_values(|e: ContextEntry| e@)
}

/// Appending an entry appends its view.
pub broadcast proof fn entries_push(v: Seq<ContextEntry>, e: ContextEntry)
    ensures
        #[trigger] entries(v.push(e)) == entries(v).push(e@),
{
    assert(entries(v.push(e)) =~= entries(v).push(e@));
}

/// A task: its state, what was said so far, and the Telegram message whose
/// answer it awaits.
#[derive(Debug, Clone)]
pub struct Task {
    pub id: u128,
    pub category: String,
    pub status: TaskStatus,
    pub created_at: Timestamp,
    pub updated_at: Timestamp,
    pub context: Vec<ContextEntry>,
    pub pending_telegram_message_id: Option<i64>,
}

/// A task by its characters.
#[verifier::ext_equal]
pub struct TaskView {
    pub id: u128,
    pub category: Seq<char>,
    pub status: TaskStatus,
    pub created_at: Timestamp,
    pub updated_at: Timestamp,
    pub context: Seq<EntryView>,
    pub pending_telegram_message_id: Option<i64>,
}

impl View for Task {
    type V = TaskView;

    open spec fn view(&self) -> TaskView {
        TaskView {
            id: self.id,
            category: self.category@,
            status: self.status,
            created_at: self.created_at,
            updated_at: self.updated_at,
            context: entries(self.context@),
            pending_telegram_message_id: self.pending_telegram_message_id,
        }
    }
}

/// A task as it begins: running, with nothing said yet.
pub open spec fn new_task(id: u128, category: Seq<char>, now: Timestamp) -> TaskView {
    TaskView {
        id,
        category,
        status: TaskStatus::Running,
        created_at: now,
        updated_at: now,
        context: Seq::empty(),
        pending_telegram_message_id: None,
    }
}

// Tasks by their identifiers.

/// A state is set, whatever the state was.
pub open spec fn status_set(
    tasks: Map<u128, TaskView>,
    id: u128,
    status: TaskStatus,
    now: Timestamp,
) -> Map<u128, TaskView> {
    if tasks.dom().contains(id) {
        tasks.insert(id, TaskView { status, updated_at: now, ..tasks[id] })
    } else {
        tasks
    }
}

/// Whether a task is still running.
pub open spec fn still_running(tasks: Map<u128, TaskView>, id: u128) -> bool {
    tasks.dom().contains(id) && tasks[id].status == TaskStatus::Running
}

/// The outcome of work on a task is entered, if the task is still running.
pub open spec fn finished(
    tasks: Map<u128, TaskView>,
    id: u128,
    status: TaskStatus,
    now: Timestamp,
) -> Map<u128, TaskView> {
    if still_running(tasks, id) {
        status_set(tasks, id, status, now)
    } else {
        tasks
    }
}

/// The tasks in memory, each under its identifier.
pub struct TaskStore {
    tasks: Vec<Task>,
}

/// Where a task stands in a list: the number of tasks where it is not there.
pub open spec fn place_of(tasks: Seq<Task>, id: u128, from: int) -> int
    decreases tasks.len() - from,
{
    if from >= tasks.len() {
        tasks.len() as int
    } else if tasks[from].id == id {
        from
    } else {
        place_of(tasks, id, from + 1)
    }
}

/// The tasks of a list by their identifiers.
pub open spec fn by_id(tasks: Seq<Task>) -> Map<u128, TaskView> {
    Map::new(
        |id: u128| exists|i: int| 0 <= i < tasks.len() && (#[trigger] tasks[i]).id == id,
        |id: u128| tasks[place_of(tasks, id, 0)]@,
    )
}

/// Whether no two tasks of a list have the same identifier.
pub open spec fn ids_differ(tasks: Seq<Task>) -> bool {
    forall|i: int, j: int|
        0 <= i < j < tasks.len() ==> (#[trigger] tasks[i]).id != (#[trigger] tasks[j]).id
}

proof fn lemma_place_of(tasks: Seq<Task>, id: u128, from: int, at: int)
    requires
        ids_differ(tasks),
        0 <= from <= at < tasks.len(),
        tasks[at].id == id,
    ensures
        place_of(tasks, id, from) == at,
    decreases at - from,
{
    if from < at {
        assert(tasks[from].id != tasks[at].id);
        lemma_place_of(tasks, id, from + 1, at);
    }
}

proof fn lemma_by_id(tasks: Seq<Task>, at: int)
    requires
        ids_differ(tasks),
        0 <= at < tasks.len(),
    ensures
        by_id(tasks).dom().contains(tasks[at].id),
        by_id(tasks)[tasks[at].id] == tasks[at]@,
{
    lemma_place_of(tasks, tasks[at].id, 0, at);
}

/// Changing one task of a list, but for its identifier, changes it in the map.
proof fn lemma_by_id_update(tasks: Seq<Task>, at: int, task: Task)
    requires
        ids_differ(tasks),
        0 <= at < tasks.len(),
        task.id == tasks[at].id,
    ensures
        ids_differ(tasks.update(at, task)),
        by_id(tasks.update(at, task)) == by_id(tasks).insert(task.id, task@),
{
    let changed = tasks.update(at, task);
    assert(ids_differ(changed));
    lemma_by_id(tasks, at);
    lemma_by_id(changed, at);
    assert forall|id: u128| by_id(changed).dom().contains(id) <==> by_id(tasks).insert(
        task.id,
        task@,
    ).dom().contains(id) by {
        if by_id(tasks).dom().contains(id) {
            let i = choose|i: int| 0 <= i < tasks.len() && (#[trigger] tasks[i]).id == id;
            assert(changed[i].id == id);
        }
        if by_id(changed).dom().contains(id) {
            let i = choose|i: int| 0 <= i < changed.len() && (#[trigger] changed[i]).id == id;
            assert(tasks[i].id == id);
        }
    }
    assert forall|id: u128| by_id(changed).dom().contains(id) implies by_id(changed)[id] == by_id(
        tasks,
    ).insert(task.id, task@)[id] by {
        let i = choose|i: int| 0 <= i < changed.len() && (#[trigger] changed[i]).id == id;
        lemma_by_id(changed, i);
        assert(tasks[i].id == id);
        lemma_by_id(tasks, i);
    }
    assert(by_id(changed) =~= by_id(tasks).insert(task.id, task@));
}

/// Adding a task with a new identifier adds it to the map.
proof fn lemma_by_id_push(tasks: Seq<Task>, task: Task)
    requires
        ids_differ(tasks),
        !by_id(tasks).dom().contains(task.id),
    ensures
        ids_differ(tasks.push(task)),
        by_id(tasks.push(task)) == by_id(tasks).insert(task.id, task@),
{
    let more = tasks.push(task);
    assert forall|i: int, j: int| 0 <= i < j < more.len() implies (#[trigger] more[i]).id != (
    #[trigger] more[j]).id by {
        if j == tasks.len() {
            assert(tasks[i].id == more[i].id);
        } else {
            assert(tasks[i].id != tasks[j].id);
        }
    }
    lemma_by_id(more, tasks.len() as int);
    assert forall|id: u128| by_id(more).dom().contains(id) <==> by_id(tasks).insert(
        task.id,
        task@,
    ).dom().contains(id) by {
        if by_id(tasks).dom().contains(id) {
            let i = choose|i: int| 0 <= i < tasks.len() && (#[trigger] tasks[i]).id == id;
            assert(more[i].id == id);
        }
        if by_id(more).dom().contains(id) && id != task.id {
            let i = choose|i: int| 0 <= i < more.len() && (#[trigger] more[i]).id == id;
            assert(tasks[i].id == id);
        }
    }
    assert forall|id: u128| by_id(more).dom().contains(id) implies by_id(more)[id] == by_id(
        tasks,
    ).insert(task.id, task@)[id] by {
        let i = choose|i: int| 0 <= i < more.len() && (#[trigger] more[i]).id == id;
        lemma_by_id(more, i);
        if i < tasks.len() {
            assert(tasks[i].id == id);
            lemma_by_id(tasks, i);
        }
    }
    assert(by_id(more) =~= by_id(tasks).insert(task.id, task@));
}

impl View for TaskStore {
    type V = Map<u128, TaskView>;

    closed spec fn view(&self) -> Map<u128, TaskView> {
        by_id(self.tasks@)
    }
}

impl TaskStore {
    #[verifier::type_invariant]
    spec fn distinct(self) -> bool {
        ids_differ(self.tasks@)
    }

    /// A store without tasks.
    pub fn new() -> (r: Self)
        ensures
            r@ == Map::<u128, TaskView>::empty(),
    {
        let r = TaskStore { tasks: Vec::new() };
        assert(r@ =~= Map::<u128, TaskView>::empty());
        r
    }

    /// Where a task stands.
    fn find(&self, id: u128) -> (r: Option<usize>)
        ensures
            ids_differ(self.tasks@),
            match r {
                Some(i) => i < self.tasks@.len() && self.tasks@[i as int].id == id
                    && self@.dom().contains(id) && self@[id] == self.tasks@[i as int]@,
                None => !self@.dom().contains(id),
            },
    {
        proof {
            use_type_invariant(self);
        }
        let mut i: usize = 0;
        while i < self.tasks.len()
            invariant
                ids_differ(self.tasks@),
                i <= self.tasks@.len(),
                forall|k: int| 0 <= k < i ==> (#[trigger] self.tasks@[k]).id != id,
            decreases self.tasks@.len() - i,
        {
            if self.tasks[i].id == id {
                proof {
                    lemma_by_id(self.tasks@, i as int);
                }
                return Some(i);
            }
            i = i + 1;
        }
        None
    }

    /// Puts a task at a position in place of the one with its identifier.
    fn replace(&mut self, at: usize, task: Task)
        requires
            at < old(self).tasks@.len(),
            old(self).tasks@[at as int].id == task.id,
        ensures
            final(self)@ == old(self)@.insert(task.id, task@),
            final(self).tasks@.len() == old(self).tasks@.len(),
    {
        proof {
            use_type_invariant(&*self);
            lemma_by_id_update(self.tasks@, at as int, task);
        }
        let mut tasks: Vec<Task> = Vec::new();
        core::mem::swap(&mut tasks, &mut self.tasks);
        tasks.set(at, task);
        self.tasks = tasks;
    }

    /// Begins a task: running, with nothing said yet. An identifier that is in
    /// use is an error.
    pub fn create(&mut self, id: u128, category: &str, now: Timestamp) -> (r: Result<(), String>)
        ensures
            r is Ok <==> !old(self)@.dom().contains(id),
            r is Ok ==> final(self)@ == old(self)@.insert(id, new_task(id, category@, now)),
            r matches Err(e) ==> final(self)@ == old(self)@ && e@
                == "не удалось вставить задачу в Task Store"@,
    {
        let task = Task {
            id,
            category: category.to_owned(),
            status: TaskStatus::Running,
            created_at: now,
            updated_at: now,
            context: Vec::new(),
            pending_telegram_message_id: None,
        };
        assert(task@ =~= new_task(id, category@, now));
        self.restore(task)
    }

    /// Takes a task in that was kept elsewhere. An identifier that is in use is
    /// an error.
    pub fn restore(&mut self, task: Task) -> (r: Result<(), String>)
        ensures
            r is Ok <==> !old(self)@.dom().contains(task.id),
            r is Ok ==> final(self)@ == old(self)@.insert(task.id, task@),
            r matches Err(e) ==> final(self)@ == old(self)@ && e@
                == "не удалось вставить задачу в Task Store"@,
    {
        if self.find(task.id).is_some() {
            return Err(String::from_str("не удалось вставить задачу в Task Store"));
        }
        proof {
            lemma_by_id_push(self.tasks@, task);
        }
        let mut tasks: Vec<Task> = Vec::new();
        core::mem::swap(&mut tasks, &mut self.tasks);
        tasks.push(task);
        self.tasks = tasks;
        Ok(())
    }

    /// A task by its identifier.
    pub fn get(&self, id: u128) -> (r: Option<&Task>)
        ensures
            r is Some <==> self@.dom().contains(id),
            r matches Some(task) ==> task@ == self@[id] && task.id == id,
    {
        match self.find(id) {
            Some(i) => Some(&self.tasks[i]),
            None => None,
        }
    }

    /// A task that awaits the answer to a Telegram message.
    pub fn find_by_pending_telegram_message(&self, message_id: i64) -> (r: Option<&Task>)
        ensures
            r is Some <==> exists|id: u128| #[trigger]
                self@.dom().contains(id) && self@[id].pending_telegram_message_id == Some(
                    message_id,
                ),
            r matches Some(task) ==> self@.dom().contains(task.id) && self@[task.id] == task@
                && task.pending_telegram_message_id == Some(message_id),
    {
        proof {
            use_type_invariant(self);
        }
        let mut i: usize = 0;
        while i < self.tasks.len()
            invariant
                ids_differ(self.tasks@),
                i <= self.tasks@.len(),
                forall|k: int|
                    0 <= k < i ==> (#[trigger] self.tasks@[k]).pending_telegram_message_id != Some(
                        message_id,
                    ),
            decreases self.tasks@.len() - i,
        {
            proof {
                lemma_by_id(self.tasks@, i as int);
            }
            match self.tasks[i].pending_telegram_message_id {
                Some(m) => {
                    if m == message_id {
                        assert(self@.dom().contains(self.tasks@[i as int].id));
                        return Some(&self.tasks[i]);
                    }
                },
                None => {},
            }
            i = i + 1;
        }
        assert forall|id: u128| #[trigger] self@.dom().contains(
            id,
        ) implies self@[id].pending_telegram_message_id != Some(message_id) by {
            let k = choose|k: int| 0 <= k < self.tasks@.len() && (#[trigger] self.tasks@[k]).id == id;
            lemma_by_id(self.tasks@, k);
        }
        None
    }

    /// Sets the state of a task, whatever it was: this is somebody's order.
    pub fn set_status(&mut self, id: u128, status: TaskStatus, now: Timestamp)
        ensures
            final(self)@ == status_set(old(self)@, id, status, now),
    {
        match self.find(id) {
            Some(i) => {
                let old_task = &self.tasks[i];
                let context = copy_context(&old_task.context);
                let task = Task {
                    id,
                    category: old_task.category.clone(),
                    status,
                    created_at: old_task.created_at,
                    updated_at: now,
                    context,
                    pending_telegram_message_id: old_task.pending_telegram_message_id,
                };
                assert(task@ =~= (TaskView { status, updated_at: now, ..self@[id] }));
                self.replace(i, task);
            },
            None => {},
        }
    }

    /// Enters the outcome of work on a task, but only if the task is still
    /// running; says whether it was entered. A task that was called off or laid
    /// aside in the meantime stays as it is.
    pub fn finish_if_still_running(&mut self, id: u128, status: TaskStatus, now: Timestamp) -> (r:
        bool)
        ensures
            r == still_running(old(self)@, id),
            final(self)@ == finished(old(self)@, id, status, now),
    {
        let running: bool = match self.find(id) {
            Some(i) => self.tasks[i].status == TaskStatus::Running,
            None => false,
        };
        if running {
            self.set_status(id, status, now);
        }
        running
    }

    /// Ties a task to a Telegram message whose answer it awaits, or unties it.
    pub fn set_pending_telegram_message(
        &mut self,
        id: u128,
        message_id: Option<i64>,
        now: Timestamp,
    )
        ensures
            final(self)@ == if old(self)@.dom().contains(id) {
                old(self)@.insert(
                    id,
                    TaskView {
                        pending_telegram_message_id: message_id,
                        updated_at: now,
                        ..old(self)@[id]
                    },
                )
            } else {
                old(self)@
            },
    {
        match self.find(id) {
            Some(i) => {
                let old_task = &self.tasks[i];
                let context = copy_context(&old_task.context);
                let task = Task {
                    id,
                    category: old_task.category.clone(),
                    status: old_task.status,
                    created_at: old_task.created_at,
                    updated_at: now,
                    context,
                    pending_telegram_message_id: message_id,
                };
                assert(task@ =~= (TaskView {
                    pending_telegram_message_id: message_id,
                    updated_at: now,
                    ..self@[id]
                }));
                self.replace(i, task);
            },
            None => {},
        }
    }

    /// Adds an entry to what was said in a task. An unknown task is an error.
    pub fn append_context(&mut self, id: u128, entry: ContextEntry, now: Timestamp) -> (r: Result<
        (),
        String,
    >)
        ensures
            r is Ok <==> old(self)@.dom().contains(id),
            r is Ok ==> final(self)@ == old(self)@.insert(
                id,
                TaskView {
                    context: old(self)@[id].context.push(entry@),
                    updated_at: now,
                    ..old(self)@[id]
                },
            ),
            r matches Err(e) ==> final(self)@ == old(self)@ && e@ == "задача "@
                + formats::id_text(id) + " не найдена"@,
    {
        broadcast use entries_push;

        match self.find(id) {
            Some(i) => {
                let old_task = &self.tasks[i];
                let mut context = copy_context(&old_task.context);
                context.push(entry);
                let task = Task {
                    id,
                    category: old_task.category.clone(),
                    status: old_task.status,
                    created_at: old_task.created_at,
                    updated_at: now,
                    context,
                    pending_telegram_message_id: old_task.pending_telegram_message_id,
                };
                assert(task@ =~= (TaskView {
                    context: self@[id].context.push(entry@),
                    updated_at: now,
                    ..self@[id]
                }));
                self.replace(i, task);
                Ok(())
            },
            None => {
                let mut e = String::from_str("задача ");
                let name = formats::write_id(id);
                e.append(name.as_str());
                e.append(" не найдена");
                Err(e)
            },
        }
    }

    /// All tasks, the last updated first.
    pub fn list(&self) -> (r: Vec<&Task>)
        ensures
            forall|i: int, j: int|
                0 <= i < j < r@.len() ==> !(#[trigger] r@[i]).updated_at.before(
                    (#[trigger] r@[j]).updated_at,
                ),
            forall|i: int, j: int|
                0 <= i < j < r@.len() ==> (#[trigger] r@[i]).id != (#[trigger] r@[j]).id,
            forall|i: int|
                0 <= i < r@.len() ==> self@.dom().contains((#[trigger] r@[i]).id)
                    && self@[r@[i].id] == r@[i]@,
            forall|id: u128| #[trigger]
                self@.dom().contains(id) ==> exists|i: int|
                    0 <= i < r@.len() && (#[trigger] r@[i]).id == id,
    {
        proof {
            use_type_invariant(self);
        }
        let mut out: Vec<&Task> = Vec::new();
        let mut n: usize = 0;
        while n < self.tasks.len()
            invariant
                ids_differ(self.tasks@),
                n <= self.tasks@.len(),
                newest_first(out@),
                draws_from(out@, self.tasks@, n as int),
            decreases self.tasks@.len() - n,
        {
            let task = &self.tasks[n];
            let ghost before = out@;
            let mut at: usize = 0;
            while at < out.len() && !out[at].updated_at.is_before(task.updated_at)
                invariant
                    at <= out@.len(),
                    out@ == before,
                    forall|k: int|
                        0 <= k < at ==> !(#[trigger] before[k]).updated_at.before(task.updated_at),
                decreases out@.len() - at,
            {
                at = at + 1;
            }
            out.insert(at, task);
            proof {
                lemma_insert_newest(before, at as int, task);
                lemma_insert_drawn(before, self.tasks@, n as int, at as int, task);
            }
            n = n + 1;
        }
        assert forall|i: int| 0 <= i < out@.len() implies self@.dom().contains(
            (#[trigger] out@[i]).id,
        ) && self@[out@[i].id] == out@[i]@ by {
            assert(is_among(*out@[i], self.tasks@, self.tasks@.len() as int));
            let k = choose|k: int|
                0 <= k < self.tasks@.len() && #[trigger] self.tasks@[k] == *out@[i];
            lemma_by_id(self.tasks@, k);
        }
        assert forall|id: u128| #[trigger] self@.dom().contains(id) implies exists|i: int|
            0 <= i < out@.len() && (#[trigger] out@[i]).id == id by {
            let k = choose|k: int| 0 <= k < self.tasks@.len() && (#[trigger] self.tasks@[k]).id == id;
            assert(refers_to(out@, self.tasks@[k]));
            let i = choose|i: int| 0 <= i < out@.len() && *(#[trigger] out@[i]) == self.tasks@[k];
            assert(out@[i].id == id);
        }
        out
    }
}

/// Whether tasks stand with the last updated first.
spec fn newest_first(v: Seq<&Task>) -> bool {
    forall|i: int, j: int|
        0 <= i < j < v.len() ==> !(#[trigger] v[i]).updated_at.before((#[trigger] v[j]).updated_at)
}

/// Whether a task is among the first `n` of a list.
spec fn is_among(t: Task, tasks: Seq<Task>, n: int) -> bool {
    exists|k: int| 0 <= k < n && #[trigger] tasks[k] == t
}

/// Whether a reference is to a task.
spec fn refers_to(v: Seq<&Task>, t: Task) -> bool {
    exists|i: int| 0 <= i < v.len() && *(#[trigger] v[i]) == t
}

/// Whether references are to the first `n` tasks of a list, to each once.
spec fn draws_from(v: Seq<&Task>, tasks: Seq<Task>, n: int) -> bool {
    &&& forall|i: int, j: int| 0 <= i < j < v.len() ==> (#[trigger] v[i]).id != (#[trigger] v[j]).id
    &&& forall|i: int| 0 <= i < v.len() ==> #[trigger] is_among(*v[i], tasks, n)
    &&& forall|k: int| 0 <= k < n ==> #[trigger] refers_to(v, tasks[k])
}

proof fn lemma_insert_newest(v: Seq<&Task>, at: int, task: &Task)
    requires
        newest_first(v),
        0 <= at <= v.len(),
        forall|k: int| 0 <= k < at ==> !(#[trigger] v[k]).updated_at.before(task.updated_at),
        at < v.len() ==> v[at].updated_at.before(task.updated_at),
    ensures
        newest_first(v.insert(at, task)),
{
    let w = v.insert(at, task);
    assert forall|i: int, j: int| 0 <= i < j < w.len() implies !(#[trigger] w[i]).updated_at.before(
        (#[trigger] w[j]).updated_at,
    ) by {
        let i2: int = if i < at { i } else { i - 1 };
        let j2: int = if j < at { j } else { j - 1 };
        if i != at {
            assert(w[i] == v[i2]);
        }
        if j != at {
            assert(w[j] == v[j2]);
        }
        if i == at && j2 > at {
            assert(!v[at].updated_at.before(v[j2].updated_at));
        }
    }
}

proof fn lemma_insert_drawn(v: Seq<&Task>, tasks: Seq<Task>, n: int, at: int, task: &Task)
    requires
        ids_differ(tasks),
        draws_from(v, tasks, n),
        0 <= n < tasks.len(),
        *task == tasks[n],
        0 <= at <= v.len(),
    ensures
        draws_from(v.insert(at, task), tasks, n + 1),
{
    let w = v.insert(at, task);
    assert(w[at] == task);
    assert forall|i: int| 0 <= i < v.len() implies (#[trigger] v[i]).id != task.id by {
        assert(is_among(*v[i], tasks, n));
        let k = choose|k: int| 0 <= k < n && #[trigger] tasks[k] == *v[i];
        assert(tasks[k].id != tasks[n].id);
    }
    assert forall|i: int, j: int| 0 <= i < j < w.len() implies (#[trigger] w[i]).id != (
    #[trigger] w[j]).id by {
        let i2: int = if i < at { i } else { i - 1 };
        let j2: int = if j < at { j } else { j - 1 };
        if i != at {
            assert(w[i] == v[i2]);
        }
        if j != at {
            assert(w[j] == v[j2]);
        }
    }
    assert forall|i: int| 0 <= i < w.len() implies #[trigger] is_among(*w[i], tasks, n + 1) by {
        let i2: int = if i < at { i } else { i - 1 };
        if i != at {
            assert(w[i] == v[i2]);
            assert(is_among(*v[i2], tasks, n));
            let k = choose|k: int| 0 <= k < n && #[trigger] tasks[k] == *v[i2];
            assert(tasks[k] == *w[i]);
        } else {
            assert(tasks[n] == *w[i]);
        }
    }
    assert forall|k: int| 0 <= k < n + 1 implies #[trigger] refers_to(w, tasks[k]) by {
        if k == n {
            assert(*w[at] == tasks[k]);
        } else {
            assert(refers_to(v, tasks[k]));
            let i = choose|i: int| 0 <= i < v.len() && *(#[trigger] v[i]) == tasks[k];
            let i2: int = if i < at { i } else { i + 1 };
            assert(w[i2] == v[i]);
        }
    }
}

/// The same entries once more.
pub fn copy_context(context: &Vec<ContextEntry>) -> (r: Vec<ContextEntry>)
    ensures
        r@ == context@,
{
    let mut out: Vec<ContextEntry> = Vec::new();
    let mut i: usize = 0;
    while i < context.len()
        invariant
            i <= context@.len(),
            out@ == context@.take(i as int),
        decreases context@.len() - i,
    {
        let e = &context[i];
        let tool_call_id: Option<String> = match &e.tool_call_id {
            Some(id) => Some(id.clone()),
            None => None,
        };
        out.push(
            ContextEntry { role: e.role.clone(), content: e.content.clone(), at: e.at, tool_call_id },
        );
        assert(out@ =~= context@.take(i + 1));
        i = i + 1;
    }
    assert(context@.take(context@.len() as int) =~= context@);
    out
}

// What a task is in a row of the database.

/// A row of the task table, but for what was said in the task.
pub struct RawRow {
    pub id: String,
    pub category: String,
    pub status: String,
    pub created_at: String,
    pub updated_at: String,
    pub pending_telegram_message_id: Option<i64>,
}

/// Writes a task into a row. There is none where a point in time of the task is
/// not one that can be written.
pub fn task_to_raw(task: &Task) -> (r: Option<RawRow>)
    ensures
        r is Some <==> formats::instant_text(task.created_at.seconds, task.created_at.nanos) is Some
            && formats::instant_text(task.updated_at.seconds, task.updated_at.nanos) is Some,
        formats::civil(task.created_at) && formats::civil(task.updated_at) ==> r is Some,
        r matches Some(row) ==> {
            &&& row.id@ == formats::id_text(task.id)
            &&& row.category@ == task.category@
            &&& row.status@ == task.status.word()
            &&& Some(row.created_at@) == formats::instant_text(
                task.created_at.seconds,
                task.created_at.nanos,
            )
            &&& Some(row.updated_at@) == formats::instant_text(
                task.updated_at.seconds,
                task.updated_at.nanos,
            )
            &&& row.pending_telegram_message_id == task.pending_telegram_message_id
            &&& formats::civil(task.created_at) && formats::civil(task.updated_at) ==> holds_task(
                row,
                task@,
            )
        },
{
    let created_at = match formats::write_instant(task.created_at) {
        Some(t) => t,
        None => {
            return None;
        },
    };
    let updated_at = match formats::write_instant(task.updated_at) {
        Some(t) => t,
        None => {
            return None;
        },
    };
    Some(
        RawRow {
            id: formats::write_id(task.id),
            category: task.category.clone(),
            status: task.status.as_str().to_owned(),
            created_at,
            updated_at,
            pending_telegram_message_id: task.pending_telegram_message_id,
        },
    )
}

/// What stands in a row, once its parts have been read: the first part that
/// could not be read is named.
pub open spec fn row_meaning(
    id: Option<u128>,
    category: Seq<char>,
    status: Seq<char>,
    created_at: Option<Timestamp>,
    updated_at: Option<Timestamp>,
    context: Result<Seq<EntryView>, Seq<char>>,
    pending_telegram_message_id: Option<i64>,
) -> Result<TaskView, Seq<char>> {
    if id is None {
        Err("некорректный UUID в базе"@)
    } else if !exists|st: TaskStatus| #[trigger] st.word() == status {
        Err(unknown_status(status))
    } else if created_at is None {
        Err("некорректная дата created_at в базе"@)
    } else if updated_at is None {
        Err("некорректная дата updated_at в базе"@)
    } else if context is Err {
        Err("не удалось разобрать контекст задачи"@)
    } else {
        Ok(
            TaskView {
                id: id->0,
                category,
                status: choose|st: TaskStatus| #[trigger] st.word() == status,
                created_at: created_at->0,
                updated_at: updated_at->0,
                context: context->Ok_0,
                pending_telegram_message_id,
            },
        )
    }
}

/// The point in time that was read, as a value of this library.
pub open spec fn stamp(p: Option<(i64, u32)>) -> Option<Timestamp> {
    match p {
        Some(p) => Some(Timestamp { seconds: p.0, nanos: p.1 }),
        None => None,
    }
}

/// The view of entries that were read, or of the failure to read them.
pub open spec fn read_entries(context: Result<Vec<ContextEntry>, String>) -> Result<
    Seq<EntryView>,
    Seq<char>,
> {
    match context {
        Ok(v) => Ok(entries(v@)),
        Err(e) => Err(e@),
    }
}

/// The view of a task that was read, or of the reason why it was not.
pub open spec fn read_task(r: Result<Task, String>) -> Result<TaskView, Seq<char>> {
    match r {
        Ok(t) => Ok(t@),
        Err(e) => Err(e@),
    }
}

/// Puts a task together from the parts of its row that have been read.
pub fn assemble_task(
    id: Option<u128>,
    category: String,
    status: &str,
    created_at: Option<Timestamp>,
    updated_at: Option<Timestamp>,
    context: Result<Vec<ContextEntry>, String>,
    pending_telegram_message_id: Option<i64>,
) -> (r: Result<Task, String>)
    ensures
        read_task(r) == row_meaning(
            id,
            category@,
            status@,
            created_at,
            updated_at,
            read_entries(context),
            pending_telegram_message_id,
        ),
{
    let id: u128 = match id {
        Some(id) => id,
        None => {
            return Err(String::from_str("некорректный UUID в базе"));
        },
    };
    let status: TaskStatus = match TaskStatus::from_str(status) {
        Ok(status) => status,
        Err(e) => {
            return Err(e);
        },
    };
    proof {
        law_words_differ();
    }
    let created_at = match created_at {
        Some(t) => t,
        None => {
            return Err(String::from_str("некорректная дата created_at в базе"));
        },
    };
    let updated_at = match updated_at {
        Some(t) => t,
        None => {
            return Err(String::from_str("некорректная дата updated_at в базе"));
        },
    };
    let context = match context {
        Ok(context) => context,
        Err(_) => {
            return Err(String::from_str("не удалось разобрать контекст задачи"));
        },
    };
    Ok(
        Task {
            id,
            category,
            status,
            created_at,
            updated_at,
            context,
            pending_telegram_message_id,
        },
    )
}

/// Reads a task out of a row. What was said in the task comes as it was read
/// from its own column.
pub fn raw_to_task(raw: RawRow, context: Result<Vec<ContextEntry>, String>) -> (r: Result<
    Task,
    String,
>)
    ensures
        read_task(r) == row_meaning(
            formats::id_of(raw.id@),
            raw.category@,
            raw.status@,
            stamp(formats::instant_of(raw.created_at@)),
            stamp(formats::instant_of(raw.updated_at@)),
            read_entries(context),
            raw.pending_telegram_message_id,
        ),
{
    let id: Option<u128> = formats::read_id(raw.id.as_str());
    let created_at = formats::read_instant(raw.created_at.as_str());
    let updated_at = formats::read_instant(raw.updated_at.as_str());
    assemble_task(
        id,
        raw.category,
        raw.status.as_str(),
        created_at,
        updated_at,
        context,
        raw.pending_telegram_message_id,
    )
}

/// Whether a row holds a task, as `task_to_raw` writes it: what is read out of
/// its columns is what the task holds.
pub open spec fn holds_task(row: RawRow, task: TaskView) -> bool {
    &&& formats::id_of(row.id@) == Some(task.id)
    &&& row.category@ == task.category
    &&& row.status@ == task.status.word()
    &&& stamp(formats::instant_of(row.created_at@)) == Some(task.created_at)
    &&& stamp(formats::instant_of(row.updated_at@)) == Some(task.updated_at)
    &&& row.pending_telegram_message_id == task.pending_telegram_message_id
}

/// A task written into a row is read back as it was.
pub proof fn law_row_round_trip(task: TaskView, row: RawRow)
    ensures
        holds_task(row, task) ==> row_meaning(
            formats::id_of(row.id@),
            row.category@,
            row.status@,
            stamp(formats::instant_of(row.created_at@)),
            stamp(formats::instant_of(row.updated_at@)),
            Ok(task.context),
            row.pending_telegram_message_id,
        ) == Ok::<TaskView, Seq<char>>(task),
{
    law_words_differ();
    assert(task.status.word() == task.status.word());
}

/// A task that was called off stays called off, whatever the work on it comes to
/// later; and so does any task that is no longer running.
pub proof fn law_settled_task_stays(
    tasks: Map<u128, TaskView>,
    id: u128,
    outcome: TaskStatus,
    now: Timestamp,
)
    requires
        tasks.dom().contains(id),
        tasks[id].status != TaskStatus::Running,
    ensures
        finished(tasks, id, outcome, now) == tasks,
{
}

/// An order is carried out whatever the state of the task is: a task that was
/// called off can be taken up again.
pub proof fn law_orders_always_apply(
    tasks: Map<u128, TaskView>,
    id: u128,
    status: TaskStatus,
    now: Timestamp,
)
    requires
        tasks.dom().contains(id),
    ensures
        status_set(tasks, id, status, now)[id].status == status,
        status_set(tasks, id, status, now)[id].context == tasks[id].context,
        forall|other: u128|
            other != id && tasks.dom().contains(other) ==> #[trigger] status_set(
                tasks,
                id,
                status,
                now,
            )[other] == tasks[other],
{
}

/// A task begins running, with nothing said yet and awaiting no answer.
pub proof fn law_a_task_begins_running(id: u128, category: Seq<char>, now: Timestamp)
    ensures
        ({
            let t = new_task(id, category, now);
            &&& t.id == id
            &&& t.category == category
            &&& t.status == TaskStatus::Running
            &&& t.created_at == now
            &&& t.updated_at == now
            &&& t.context.len() == 0
            &&& t.pending_telegram_message_id is None
        }),
{
}

/// The outcome of a task that is still running becomes its state, at once and with
/// nothing else of it changed; other tasks stay as they are, and an unknown task is not
/// made.
pub proof fn law_an_outcome_ends_a_running_task(
    tasks: Map<u128, TaskView>,
    id: u128,
    outcome: TaskStatus,
    other: u128,
    now: Timestamp,
)
    ensures
        finished(tasks, id, outcome, now).dom() == tasks.dom(),
        tasks.dom().contains(id) && tasks[id].status == TaskStatus::Running ==> {
            let t = finished(tasks, id, outcome, now)[id];
            &&& t.status == outcome
            &&& t.updated_at == now
            &&& t.context == tasks[id].context
            &&& t.category == tasks[id].category
            &&& t.pending_telegram_message_id == tasks[id].pending_telegram_message_id
        },
        other != id && tasks.dom().contains(other) ==> finished(tasks, id, outcome, now)[other]
            == tasks[other],
        status_set(tasks, id, outcome, now).dom() == tasks.dom(),
        tasks.dom().contains(id) ==> status_set(tasks, id, outcome, now)[id].updated_at == now,
        still_running(tasks, id) <==> tasks.dom().contains(id) && tasks[id].status
            == TaskStatus::Running,
{
    assert(finished(tasks, id, outcome, now).dom() =~= tasks.dom());
    assert(status_set(tasks, id, outcome, now).dom() =~= tasks.dom());
}

/// A row is read exactly if every part of it can be, and the task then holds what the
/// parts held; else the first part that cannot be read is named.
pub proof fn law_a_row_is_read_whole_or_not_at_all(
    id: Option<u128>,
    category: Seq<char>,
    status: TaskStatus,
    created_at: Option<Timestamp>,
    updated_at: Option<Timestamp>,
    context: Result<Seq<EntryView>, Seq<char>>,
    pending: Option<i64>,
)
    ensures
        ({
            let r = row_meaning(
                id,
                category,
                status.word(),
                created_at,
                updated_at,
                context,
                pending,
            );
            &&& r is Ok <==> id is Some && created_at is Some && updated_at is Some && context is Ok
            &&& r matches Ok(t) ==> {
                &&& Some(t.id) == id
                &&& t.category == category
                &&& t.status == status
                &&& Some(t.created_at) == created_at
                &&& Some(t.updated_at) == updated_at
                &&& t.context == context->Ok_0
                &&& t.pending_telegram_message_id == pending
            }
            &&& id is None ==> r == Err::<TaskView, Seq<char>>("некорректный UUID в базе"@)
            &&& id is Some && created_at is None ==> r == Err::<TaskView, Seq<char>>(
                "некорректная дата created_at в базе"@,
            )
            &&& id is Some && created_at is Some && updated_at is None ==> r == Err::<
                TaskView,
                Seq<char>,
            >("некорректная дата updated_at в базе"@)
            &&& id is Some && created_at is Some && updated_at is Some && context is Err ==> r
                == Err::<TaskView, Seq<char>>("не удалось разобрать контекст задачи"@)
        }),
{
    law_words_differ();
    let w = status.word();
    assert(exists|st: TaskStatus| #[trigger] st.word() == w);
}

/// A word that stands for no state is an error that names it.
pub proof fn law_an_unknown_state_is_an_error(
    id: u128,
    category: Seq<char>,
    status: Seq<char>,
    created_at: Option<Timestamp>,
    updated_at: Option<Timestamp>,
    context: Result<Seq<EntryView>, Seq<char>>,
    pending: Option<i64>,
)
    requires
        status != "running"@,
        status != "waiting_for_human"@,
        status != "paused"@,
        status != "done"@,
        status != "failed"@,
        status != "cancelled"@,
    ensures
        row_meaning(Some(id), category, status, created_at, updated_at, context, pending) == Err::<
            TaskView,
            Seq<char>,
        >("неизвестный статус задачи в базе: '"@ + status + "'"@),
{
    assert forall|st: TaskStatus| #[trigger] st.word() != status by {}
}

/// Each state is stored by its own word.
pub proof fn law_states_have_their_words()
    ensures
        TaskStatus::Running.word() == "running"@,
        TaskStatus::WaitingForHuman.word() == "waiting_for_human"@,
        TaskStatus::Paused.word() == "paused"@,
        TaskStatus::Done.word() == "done"@,
        TaskStatus::Failed.word() == "failed"@,
        TaskStatus::Cancelled.word() == "cancelled"@,
{
}

} // verus!
