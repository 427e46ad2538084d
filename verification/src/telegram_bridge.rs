//! The Telegram bot: who may use it, what it says, and how a message is sent in
//! the user's name.
//!
//! Nothing is sent without a confirmation. A confirmation belongs to one text: it
//! is good for that text only, for a while, and once. Talking to Telegram and to
//! the control interface is done around the functions here.

use crate::clock;
use crate::clock::Timestamp;
use crate::control_center_api;
use crate::formats;
use crate::numbers;
use crate::text;
use std::collections::hash_map::DefaultHasher;
use std::collections::HashMap;
use std::hash::Hasher;
use vstd::prelude::*;
use vstd::std_specs::hash::DefaultHasherAdditionalSpecFns;
use vstd::utf8::encode_utf8;

verus! {

broadcast use text::texts_push;

/// The environment variable that holds the bot's token.
pub const TOKEN_ENV: &'static str = "TELOXIDE_TOKEN";

/// The role of an entry that holds the draft of a message.
pub const DRAFT_ROLE: &'static str = "draft";

/// Where the bot's owner is kept.
pub const OWNER_FILE: &'static str = ".kaic/telegram-owner.txt";

// The owner.

/// What becomes of somebody who writes to the bot.
#[derive(Debug, Clone, Copy, PartialEq, Eq, Structural)]
pub enum OwnerDecision {
    /// There was no owner; the sender is now.
    Claimed,
    /// The sender is the owner.
    Allowed,
    /// Somebody else is the owner.
    Denied,
}

/// What is known of a sender.
#[derive(Debug)]
pub enum OwnerStep {
    Decided(OwnerDecision),
    /// There is no owner. The sender becomes it once this text is stored in the
    /// owner's file.
    Store(String),
}

/// The owner that the owner's file names.
pub open spec fn owner_in(file: Option<Seq<char>>) -> Option<int> {
    match file {
        Some(raw) => numbers::signed_value(text::trimmed(raw)),
        None => None,
    }
}

/// Who may use the bot: the first who wrote to it. The owner is kept in a file and
/// stays the owner when the program starts again.
pub struct OwnerGuard {
    cached: Option<i64>,
}

impl OwnerGuard {
    /// The owner, as far as known without the file.
    pub closed spec fn owner(&self) -> Option<int> {
        match self.cached {
            Some(id) => Some(id as int),
            None => None,
        }
    }

    /// Nothing is known without the file.
    pub fn new() -> (r: Self)
        ensures
            r.owner() is None,
    {
        OwnerGuard { cached: None }
    }

    /// Whether the file has to be looked at.
    pub fn needs_file(&self) -> (r: bool)
        ensures
            r == self.owner() is None,
    {
        self.cached.is_none()
    }

    /// Decides on a sender. `file` is what the owner's file holds, where there is
    /// one.
    pub fn authorize(&mut self, user_id: i64, file: Option<String>) -> (r: OwnerStep)
        ensures
            final(self).owner() == match old(self).owner() {
                Some(id) => Some(id),
                None => owner_in(text::opt_text(file)),
            },
            match final(self).owner() {
                Some(id) => r == OwnerStep::Decided(
                    if id == user_id {
                        OwnerDecision::Allowed
                    } else {
                        OwnerDecision::Denied
                    },
                ),
                None => r matches OwnerStep::Store(t) && t@ == text::signed_decimal(
                    user_id as int,
                ),
            },
    {
        if self.cached.is_none() {
            self.cached =
            match file {
                Some(raw) => {
                    let trimmed = text::trim(raw.as_str());
                    numbers::parse_i64(trimmed.as_str())
                },
                None => None,
            };
        }
        match self.cached {
            Some(id) => if id == user_id {
                OwnerStep::Decided(OwnerDecision::Allowed)
            } else {
                OwnerStep::Decided(OwnerDecision::Denied)
            },
            None => OwnerStep::Store(text::show_signed(user_id)),
        }
    }

    /// The owner's file was written, or could not be. Without it nobody becomes the
    /// owner.
    pub fn stored(&mut self, user_id: i64, ok: bool) -> (r: OwnerDecision)
        requires
            old(self).owner() is None,
        ensures
            ok ==> r == OwnerDecision::Claimed && final(self).owner() == Some(user_id as int),
            !ok ==> r == OwnerDecision::Denied && final(self).owner() is None,
    {
        if ok {
            self.cached = Some(user_id);
            OwnerDecision::Claimed
        } else {
            OwnerDecision::Denied
        }
    }
}

/// The owner stays the owner when the program starts again: the file that was
/// stored for a sender names that sender, and nobody else.
pub proof fn law_owner_survives_restart(user_id: i64)
    ensures
        owner_in(Some(text::signed_decimal(user_id as int))) == Some(user_id as int),
{
    numbers::lemma_written_integer_is_trimmed(user_id);
    numbers::law_integer_round_trip(user_id);
}

// Settings.

/// The settings of the bot.
#[derive(Debug, Clone)]
pub struct TelegramConfig {
    /// What is put below a message that is sent in the user's name.
    pub assistant_label: String,
    /// For how long a confirmation is good.
    pub approval_ttl_seconds: i64,
    pub audit_log_path: String,
    pub api_base_url: String,
    pub poll_interval_ms: u64,
}

impl Default for TelegramConfig {
    fn default() -> (r: Self)
        ensures
            r.assistant_label@ == "🤖 сообщение от ассистента"@,
            r.approval_ttl_seconds == 900,
            r.audit_log_path@ == ".kaic/telegram-audit.log"@,
            r.api_base_url@ == "http://127.0.0.1:4545"@,
            r.poll_interval_ms == 1000,
    {
        TelegramConfig {
            assistant_label: String::from_str("🤖 сообщение от ассистента"),
            approval_ttl_seconds: 900,
            audit_log_path: String::from_str(".kaic/telegram-audit.log"),
            api_base_url: String::from_str("http://127.0.0.1:4545"),
            poll_interval_ms: 1000,
        }
    }
}

/// Whether the bot is to be started.
#[derive(Debug, Clone, Copy, PartialEq, Eq, Structural)]
pub enum BotToken {
    /// The variable is not set, which is no error.
    Missing,
    /// The variable is set to nothing.
    Blank,
    Usable,
}

/// Whether the bot is to be started, by the value of its variable.
pub fn check_token(value: Option<&str>) -> (r: BotToken)
    ensures
        r == match value {
            None => BotToken::Missing,
            Some(t) => if text::is_blank(t@) {
                BotToken::Blank
            } else {
                BotToken::Usable
            },
        },
{
    match value {
        None => BotToken::Missing,
        Some(t) => if text::blank(t) {
            BotToken::Blank
        } else {
            BotToken::Usable
        },
    }
}

// Tasks, as the control interface shows them.

/// An entry of a task.
#[derive(Debug)]
pub struct ApiContextEntry {
    pub role: String,
    pub content: String,
}

/// A task.
#[derive(Debug)]
pub struct ApiTask {
    pub id: u128,
    pub category: String,
    pub status: String,
    pub context: Vec<ApiContextEntry>,
}

/// What the last entry of a role holds.
pub open spec fn last_of(context: Seq<ApiContextEntry>, role: Seq<char>) -> Option<Seq<char>>
    decreases context.len(),
{
    if context.len() == 0 {
        None
    } else if context.last().role@ == role {
        Some(context.last().content@)
    } else {
        last_of(context.drop_last(), role)
    }
}

impl ApiTask {
    /// What the last entry of a role holds.
    pub fn last_with_role(&self, role: &str) -> (r: Option<&str>)
        ensures
            match r {
                Some(t) => last_of(self.context@, role@) == Some(t@),
                None => last_of(self.context@, role@) is None,
            },
    {
        let mut n: usize = self.context.len();
        assert(self.context@.take(n as int) =~= self.context@);
        while n > 0
            invariant
                n <= self.context@.len(),
                last_of(self.context@, role@) == last_of(self.context@.take(n as int), role@),
            decreases n,
        {
            assert(self.context@.take(n as int).last() == self.context@[n - 1]);
            assert(self.context@.take(n as int).drop_last() =~= self.context@.take(n - 1));
            if text::same(self.context[n - 1].role.as_str(), role) {
                return Some(self.context[n - 1].content.as_str());
            }
            n = n - 1;
        }
        None
    }
}

/// The first characters of an identifier.
pub fn short_id(id: u128) -> (r: String)
    ensures
        r@ == formats::id_text(id).take(8),
{
    let whole = formats::write_id(id);
    let v = text::chars_of(whole.as_str());
    assert(v@.len() == 36);
    assert(v@.subrange(0, 8) =~= formats::id_text(id).take(8));
    text::spell(&v, 0, 8)
}

// What the bot says.

/// What is said to somebody who is not the owner.
pub const DENIED_NOTE: &'static str = "Недоступно.";

/// What the bot says to a sender, and the task it is given.
pub struct Reception {
    pub replies: Vec<String>,
    pub task: Option<String>,
}

/// What the bot says to a sender.
pub open spec fn replies_to(decision: OwnerDecision, said: Option<Seq<char>>) -> Seq<Seq<char>> {
    if decision == OwnerDecision::Denied {
        seq![DENIED_NOTE@]
    } else {
        (if decision == OwnerDecision::Claimed {
            seq!["Готов к работе."@]
        } else {
            Seq::empty()
        }) + (if said is None {
            seq!["Понимаю только текст."@]
        } else {
            Seq::empty()
        })
    }
}

/// The task that a sender gives: a text that is not blank, if the sender may.
pub open spec fn task_from(decision: OwnerDecision, said: Option<Seq<char>>) -> Option<Seq<char>> {
    match said {
        Some(t) if decision != OwnerDecision::Denied && !text::is_blank(t) => Some(t),
        _ => None,
    }
}

/// Receives a message. A stranger is told nothing and gives no task.
pub fn receive(decision: OwnerDecision, said: Option<String>) -> (r: Reception)
    ensures
        text::texts(r.replies@) == replies_to(decision, text::opt_text(said)),
        text::opt_text(r.task) == task_from(decision, text::opt_text(said)),
{
    let mut replies: Vec<String> = Vec::new();
    assert(text::texts(replies@) =~= Seq::<Seq<char>>::empty());
    if decision == OwnerDecision::Denied {
        replies.push(String::from_str(DENIED_NOTE));
        assert(text::texts(replies@) =~= seq![DENIED_NOTE@]);
        return Reception { replies, task: None };
    }
    if decision == OwnerDecision::Claimed {
        replies.push(String::from_str("Готов к работе."));
    }
    match said {
        None => {
            replies.push(String::from_str("Понимаю только текст."));
            assert(text::texts(replies@) =~= replies_to(decision, None));
            Reception { replies, task: None }
        },
        Some(t) => {
            assert(text::texts(replies@) =~= replies_to(decision, Some(t@)));
            if text::blank(t.as_str()) {
                Reception { replies, task: None }
            } else {
                Reception { replies, task: Some(t) }
            }
        },
    }
}

/// The first line of the progress of a task.
pub const ACCEPTED: &'static str = "🔎 Принял задачу, определяю категорию…";

/// The line that says that a model is being chosen.
pub const PLACING: &'static str = "⚙️ Подбираю модель и выполняю…";

/// The line that says that a model is at work.
pub const WORKING: &'static str = "🧠 Модель работает…";

/// The line that says that a task is done.
pub const DONE: &'static str = "✅ Готово.";

/// What is said where a task is done and holds no answer.
pub const NO_ANSWER: &'static str = "(модель не вернула текст)";

/// The line on a task that waits for a decision on nothing.
pub const NO_DRAFT: &'static str = "⏸️ Задача ждёт решения человека, но черновика в контексте нет.";

/// The progress of a task, in one message: each step adds a line to it.
pub struct Progress {
    lines: Vec<String>,
}

impl View for Progress {
    type V = Seq<Seq<char>>;

    closed spec fn view(&self) -> Seq<Seq<char>> {
        text::texts(self.lines@)
    }
}

impl Progress {
    /// The progress with its first line.
    pub fn start(first_line: &str) -> (r: Progress)
        ensures
            r@ == seq![first_line@],
    {
        let mut lines: Vec<String> = Vec::new();
        assert(text::texts(lines@) =~= Seq::<Seq<char>>::empty());
        lines.push(first_line.to_owned());
        assert(text::texts(lines@) =~= seq![first_line@]);
        Progress { lines }
    }

    /// Adds a line; gives the whole message.
    pub fn step(&mut self, line: String) -> (r: String)
        ensures
            final(self)@ == old(self)@.push(line@),
            r@ == text::joined(final(self)@, "\n"@),
    {
        self.lines.push(line);
        text::join(&self.lines, "\n")
    }
}

/// The line that says what a task is.
pub fn category_line(task: &ApiTask) -> (r: String)
    ensures
        r@ == "📂 Категория: "@ + task.category@ + " · задача "@ + formats::id_text(task.id).take(8),
{
    let mut line = String::from_str("📂 Категория: ");
    line.append(task.category.as_str());
    line.append(" · задача ");
    line.append(short_id(task.id).as_str());
    line
}

/// The line that says why there is no task.
pub fn creation_failed(error: &str) -> (r: String)
    ensures
        r@ == "❌ Не удалось создать задачу: "@ + error@,
{
    let mut line = String::from_str("❌ Не удалось создать задачу: ");
    line.append(error);
    line
}

/// The line that says why a task is no longer watched.
pub fn waiting_failed(error: &str) -> (r: String)
    ensures
        r@ == "❌ Ошибка ожидания: "@ + error@,
{
    let mut line = String::from_str("❌ Ошибка ожидания: ");
    line.append(error);
    line
}

/// Whether there is nothing more to wait for.
pub open spec fn is_final(status: Seq<char>) -> bool {
    status == "done"@ || status == "failed"@ || status == "cancelled"@ || status
        == "waiting_for_human"@
}

/// A task that is being watched.
pub struct Watch {
    last_status: String,
}

impl View for Watch {
    type V = Seq<char>;

    closed spec fn view(&self) -> Seq<char> {
        self.last_status@
    }
}

impl Watch {
    /// Nothing was seen yet.
    pub fn new() -> (r: Watch)
        ensures
            r@ == Seq::<char>::empty(),
    {
        Watch { last_status: String::new() }
    }

    /// Takes the state in which a task was seen: gives the line to add to the
    /// progress, if the state is a new one that asks for one, and says whether
    /// there is nothing more to wait for.
    pub fn seen(&mut self, status: &str) -> (r: (Option<&'static str>, bool))
        ensures
            final(self)@ == status@,
            r.0 is Some <==> old(self)@ != status@ && status@ == "running"@,
            r.0 matches Some(line) ==> line@ == WORKING@,
            r.1 == is_final(status@),
    {
        let mut line: Option<&'static str> = None;
        if !text::same(self.last_status.as_str(), status) {
            self.last_status = status.to_owned();
            if text::same(status, "running") {
                line = Some(WORKING);
            }
        }
        let over: bool = text::same(status, "done") || text::same(status, "failed") || text::same(
            status,
            "cancelled",
        ) || text::same(status, "waiting_for_human");
        (line, over)
    }
}

/// What the bot tells of a task that is over or waits.
#[derive(Debug)]
pub enum Report {
    /// This draft is to be confirmed.
    Offer(String),
    /// A line of the progress.
    Line(String),
    /// The answer, and the file that goes with it.
    Answer { answer: String, artifact: Option<String> },
}

/// A report by its characters.
#[verifier::ext_equal]
pub enum ReportView {
    Offer(Seq<char>),
    Line(Seq<char>),
    Answer { answer: Seq<char>, artifact: Option<Seq<char>> },
}

impl View for Report {
    type V = ReportView;

    open spec fn view(&self) -> ReportView {
        match self {
            Report::Offer(t) => ReportView::Offer(t@),
            Report::Line(t) => ReportView::Line(t@),
            Report::Answer { answer, artifact } => ReportView::Answer {
                answer: answer@,
                artifact: text::opt_text(*artifact),
            },
        }
    }
}

/// What the bot tells of a task.
pub open spec fn report_on(status: Seq<char>, context: Seq<ApiContextEntry>) -> ReportView {
    if status == "waiting_for_human"@ {
        match last_of(context, "draft"@) {
            Some(draft) => ReportView::Offer(draft),
            None => ReportView::Line(NO_DRAFT@),
        }
    } else if status == "done"@ {
        ReportView::Answer {
            answer: match last_of(context, "assistant"@) {
                Some(answer) => answer,
                None => NO_ANSWER@,
            },
            artifact: last_of(context, "artifact"@),
        }
    } else if status == "failed"@ {
        ReportView::Line(
            "❌ Задача завершилась ошибкой: "@ + match last_of(context, "system"@) {
                Some(reason) => reason,
                None => "причина не записана"@,
            },
        )
    } else {
        ReportView::Line("ℹ️ Задача в состоянии «"@ + status + "»."@)
    }
}

/// What the bot tells of a task. An answer is what the last answer of the task
/// says, never a draft or a note.
pub fn report(task: &ApiTask) -> (r: Report)
    ensures
        r@ == report_on(task.status@, task.context@),
{
    proof {
        lemma_states_differ();
    }
    let status = task.status.as_str();
    if text::same(status, "waiting_for_human") {
        return match task.last_with_role(DRAFT_ROLE) {
            Some(draft) => Report::Offer(draft.to_owned()),
            None => Report::Line(NO_DRAFT.to_owned()),
        };
    }
    if text::same(status, "done") {
        let answer = match task.last_with_role(control_center_api::ASSISTANT_ROLE) {
            Some(answer) => answer.to_owned(),
            None => NO_ANSWER.to_owned(),
        };
        let artifact: Option<String> = match task.last_with_role(
            control_center_api::ARTIFACT_ROLE,
        ) {
            Some(path) => Some(path.to_owned()),
            None => None,
        };
        return Report::Answer { answer, artifact };
    }
    if text::same(status, "failed") {
        let mut line = String::from_str("❌ Задача завершилась ошибкой: ");
        match task.last_with_role(control_center_api::SYSTEM_ROLE) {
            Some(reason) => line.append(reason),
            None => line.append("причина не записана"),
        }
        return Report::Line(line);
    }
    let mut line = String::from_str("ℹ️ Задача в состоянии «");
    line.append(status);
    line.append("».");
    Report::Line(line)
}

proof fn lemma_states_differ()
    ensures
        "waiting_for_human"@ != "done"@,
        "waiting_for_human"@ != "failed"@,
        "done"@ != "failed"@,
{
    reveal_strlit("waiting_for_human");
    reveal_strlit("done");
    reveal_strlit("failed");
    assert("waiting_for_human"@.len() != "done"@.len());
    assert("waiting_for_human"@.len() != "failed"@.len());
    assert("done"@.len() != "failed"@.len());
}

/// Whether a file is sent as a video, by the ending of its name.
pub fn is_video(extension: Option<&str>) -> (r: bool)
    ensures
        r == match extension {
            Some(e) => text::alike(e@, "mp4"@),
            None => false,
        },
{
    match extension {
        Some(e) => text::same_letters(e, "mp4"),
        None => false,
    }
}

// Confirmations.

/// The hash of a text, as `DefaultHasher` makes it: of the bytes of the text, and a
/// byte that occurs in no text.
pub open spec fn hash_of(t: Seq<char>) -> u64 {
    DefaultHasher::spec_finish(seq![encode_utf8(t), seq![0xffu8]])
}

/// The hash of a text.
pub fn hash_text(t: &str) -> (r: u64)
    ensures
        r == hash_of(t@),
{
    let mut hasher = DefaultHasher::new();
    hasher.write(t.as_bytes());
    let end: [u8; 1] = [0xff];
    hasher.write(end.as_slice());
    assert(end@ =~= seq![0xffu8]);
    assert(hasher@ =~= seq![encode_utf8(t@), seq![0xffu8]]);
    hasher.finish()
}

/// A draft that was shown and awaits a confirmation.
#[derive(Debug)]
pub struct PendingDraft {
    pub task_id: u128,
    /// The hash of the text that was shown.
    pub text_hash: u64,
    pub created_at: Timestamp,
    /// To whom the message goes, in words.
    pub target: String,
    /// The chat in which the draft was shown, and the message that shows it.
    pub origin_chat: i64,
    pub prompt_message: i32,
}

/// The drafts that await a confirmation.
pub struct Approvals {
    next_id: u32,
    drafts: HashMap<u32, PendingDraft>,
}

impl View for Approvals {
    type V = Map<u32, PendingDraft>;

    closed spec fn view(&self) -> Map<u32, PendingDraft> {
        self.drafts@
    }
}

/// What a button asks for.
#[derive(Debug)]
pub enum Press {
    /// The press means nothing.
    Ignored,
    /// There is no such draft, or no longer.
    NotFound,
    Cancel(PendingDraft),
    Edit(PendingDraft),
    /// The draft is to be sent, with the label or without, if it passes.
    Send { id: u32, draft: PendingDraft, labeled: bool },
}

/// The action and the number that a button carries.
pub open spec fn button_of(data: Seq<char>) -> Option<(Seq<char>, u32)> {
    match text::split_at_first(data, ':') {
        None => None,
        Some((action, number)) => match numbers::unsigned_value(number, u32::MAX as nat) {
            Some(n) => Some((action, n as u32)),
            None => None,
        },
    }
}

/// The drafts that are kept after a button was pressed, and what the button asks
/// for. Whatever it asks for, its draft is no longer kept.
pub open spec fn pressed(drafts: Map<u32, PendingDraft>, data: Option<Seq<char>>) -> (
    Map<u32, PendingDraft>,
    Press,
) {
    match data {
        None => (drafts, Press::Ignored),
        Some(d) => match button_of(d) {
            None => (drafts, Press::Ignored),
            Some((action, id)) => (
                drafts.remove(id),
                if !drafts.dom().contains(id) {
                    Press::NotFound
                } else if action == "cnl"@ {
                    Press::Cancel(drafts[id])
                } else if action == "edt"@ {
                    Press::Edit(drafts[id])
                } else if action == "snd"@ || action == "raw"@ {
                    Press::Send { id, draft: drafts[id], labeled: action == "snd"@ }
                } else {
                    Press::Ignored
                },
            ),
        },
    }
}

impl Approvals {
    /// The number given last.
    pub closed spec fn last_id(&self) -> u32 {
        self.next_id
    }

    /// No drafts.
    pub fn new() -> (r: Self)
        ensures
            r@ == Map::<u32, PendingDraft>::empty(),
            r.last_id() == 0,
    {
        Approvals { next_id: 0, drafts: HashMap::new() }
    }

    /// Keeps a draft that was shown, under the next number.
    pub fn offer(&mut self, pending: PendingDraft) -> (r: u32)
        ensures
            r == if old(self).last_id() == u32::MAX {
                0
            } else {
                old(self).last_id() + 1
            },
            final(self).last_id() == r,
            final(self)@ == old(self)@.insert(r, pending),
    {
        self.next_id = if self.next_id == u32::MAX {
            0
        } else {
            self.next_id + 1
        };
        let id: u32 = self.next_id;
        self.drafts.insert(id, pending);
        id
    }

    /// Takes a draft away.
    pub fn take(&mut self, id: u32) -> (r: Option<PendingDraft>)
        ensures
            r is Some <==> old(self)@.dom().contains(id),
            r matches Some(d) ==> d == old(self)@[id],
            final(self)@ == old(self)@.remove(id),
            final(self).last_id() == old(self).last_id(),
    {
        let ghost before = self.drafts@;
        let r = self.drafts.remove(&id);
        assert(self.drafts@ =~= before.remove(id));
        r
    }

    /// A button was pressed. Whatever it asks for, the draft is no longer kept:
    /// pressing again finds nothing.
    pub fn press(&mut self, data: Option<&str>) -> (r: Press)
        ensures
            final(self).last_id() == old(self).last_id(),
            (final(self)@, r) == pressed(
                old(self)@,
                match data {
                    Some(d) => Some(d@),
                    None => None,
                },
            ),
    {
        let (action, number) = match data {
            None => {
                return Press::Ignored;
            },
            Some(d) => match text::split_once(d, ':') {
                None => {
                    return Press::Ignored;
                },
                Some(parts) => parts,
            },
        };
        let id: u32 = match numbers::parse_u32(number.as_str()) {
            Some(id) => id,
            None => {
                return Press::Ignored;
            },
        };
        let draft = match self.take(id) {
            Some(draft) => draft,
            None => {
                return Press::NotFound;
            },
        };
        let action = action.as_str();
        if text::same(action, "cnl") {
            return Press::Cancel(draft);
        }
        if text::same(action, "edt") {
            return Press::Edit(draft);
        }
        let labeled: bool = text::same(action, "snd");
        if labeled || text::same(action, "raw") {
            return Press::Send { id, draft, labeled };
        }
        Press::Ignored
    }
}

/// What becomes of a draft that was confirmed.
#[derive(Debug)]
pub enum Verdict {
    /// This text is to be sent.
    Approved(String),
    /// The confirmation came too late.
    Expired,
    /// The draft is not the one that was shown.
    Changed,
}

/// A verdict by its characters.
#[verifier::ext_equal]
pub enum VerdictView {
    Approved(Seq<char>),
    Expired,
    Changed,
}

impl View for Verdict {
    type V = VerdictView;

    open spec fn view(&self) -> VerdictView {
        match self {
            Verdict::Approved(t) => VerdictView::Approved(t@),
            Verdict::Expired => VerdictView::Expired,
            Verdict::Changed => VerdictView::Changed,
        }
    }
}

/// Whether a confirmation came too late.
pub open spec fn too_late(pending: PendingDraft, ttl_seconds: i64, now: Timestamp) -> bool {
    clock::seconds(pending.created_at, now) > ttl_seconds
}

/// Whether a confirmation came too late.
pub fn is_expired(pending: &PendingDraft, ttl_seconds: i64, now: Timestamp) -> (r: bool)
    ensures
        r == too_late(*pending, ttl_seconds, now),
{
    clock::elapsed_seconds(pending.created_at, now) > ttl_seconds as i128
}

/// What becomes of a draft that was confirmed. `current` is the draft as the task
/// holds it now, if it holds one, and `hash` its hash.
pub open spec fn verdict_on(
    pending: PendingDraft,
    ttl_seconds: i64,
    now: Timestamp,
    current: Option<(Seq<char>, u64)>,
) -> VerdictView {
    if too_late(pending, ttl_seconds, now) {
        VerdictView::Expired
    } else {
        match current {
            Some((draft, hash)) if hash == pending.text_hash => VerdictView::Approved(draft),
            _ => VerdictView::Changed,
        }
    }
}

/// A text with its hash.
pub open spec fn with_hash(t: Option<Seq<char>>) -> Option<(Seq<char>, u64)> {
    match t {
        Some(t) => Some((t, hash_of(t))),
        None => None,
    }
}

/// The draft of a task, where there is a task and it holds one.
pub open spec fn draft_of(task: Option<&ApiTask>) -> Option<Seq<char>> {
    match task {
        Some(t) => last_of(t.context@, "draft"@),
        None => None,
    }
}

/// Judges a draft that was confirmed: not too late, and the text that is sent is
/// the one that was shown. `task` is the task as it is now, if it can be had.
pub fn verify(
    pending: &PendingDraft,
    ttl_seconds: i64,
    now: Timestamp,
    task: Option<&ApiTask>,
) -> (r: Verdict)
    ensures
        r@ == verdict_on(*pending, ttl_seconds, now, with_hash(draft_of(task))),
{
    if is_expired(pending, ttl_seconds, now) {
        return Verdict::Expired;
    }
    let current: Option<&str> = match task {
        Some(task) => task.last_with_role(DRAFT_ROLE),
        None => None,
    };
    match current {
        Some(draft) => {
            if hash_text(draft) == pending.text_hash {
                Verdict::Approved(draft.to_owned())
            } else {
                Verdict::Changed
            }
        },
        None => Verdict::Changed,
    }
}

/// A draft that stays as it was shown is approved in time, and only in time; and
/// whatever is approved has the hash of what was shown.
pub proof fn law_only_the_shown_text_is_sent(
    pending: PendingDraft,
    shown: Seq<char>,
    ttl_seconds: i64,
    now: Timestamp,
    current: Option<Seq<char>>,
)
    requires
        pending.text_hash == hash_of(shown),
    ensures
        current == Some(shown) && !too_late(pending, ttl_seconds, now) ==> verdict_on(
            pending,
            ttl_seconds,
            now,
            with_hash(current),
        ) == VerdictView::Approved(shown),
        too_late(pending, ttl_seconds, now) ==> verdict_on(
            pending,
            ttl_seconds,
            now,
            with_hash(current),
        ) == VerdictView::Expired,
        verdict_on(pending, ttl_seconds, now, with_hash(current)) matches VerdictView::Approved(t)
            ==> current == Some(t) && hash_of(t) == hash_of(shown),
{
}

/// A confirmation is used once: after a press the draft is gone, and a second
/// press of a button with the same number finds nothing.
pub proof fn law_confirmation_is_used_once(
    drafts: Map<u32, PendingDraft>,
    data: Seq<char>,
    again: Seq<char>,
)
    requires
        button_of(data) matches Some(first) && button_of(again) matches Some(second) && first.1
            == second.1,
    ensures
        !pressed(drafts, Some(data)).0.dom().contains((button_of(data)->0).1),
        pressed(pressed(drafts, Some(data)).0, Some(again)) == (
            pressed(drafts, Some(data)).0,
            Press::NotFound,
        ),
{
    let kept = pressed(drafts, Some(data)).0;
    assert(kept.remove((button_of(again)->0).1) =~= kept);
}

/// The card that shows a draft.
pub fn draft_card(target: &str, draft: &str, label: &str) -> (r: String)
    ensures
        r@ == "✍️ Черновик\n\nКому: "@ + target@ + "\n\n"@ + draft@ + "\n\nПометка «"@ + label@
            + "» будет добавлена при отправке."@,
{
    let mut card = String::from_str("✍️ Черновик\n\nКому: ");
    card.append(target);
    card.append("\n\n");
    card.append(draft);
    card.append("\n\nПометка «");
    card.append(label);
    card.append("» будет добавлена при отправке.");
    card
}

/// What a button of a card says and carries.
#[derive(Debug)]
pub struct Button {
    pub caption: &'static str,
    pub data: String,
}

fn button(caption: &'static str, action: &str, id: u32) -> (r: Button)
    ensures
        r.caption == caption,
        r.data@ == action@ + text::decimal(id as nat),
{
    let mut data = action.to_owned();
    data.append(text::show(id as u64).as_str());
    Button { caption, data }
}

/// The buttons of a card: two rows of two.
pub fn draft_buttons(id: u32) -> (r: (Button, Button, Button, Button))
    ensures
        r.0.caption@ == "Отправить"@ && r.0.data@ == "snd:"@ + text::decimal(id as nat),
        r.1.caption@ == "Отправить без пометки"@ && r.1.data@ == "raw:"@ + text::decimal(id as nat),
        r.2.caption@ == "Правка"@ && r.2.data@ == "edt:"@ + text::decimal(id as nat),
        r.3.caption@ == "Отмена"@ && r.3.data@ == "cnl:"@ + text::decimal(id as nat),
{
    (
        button("Отправить", "snd:", id),
        button("Отправить без пометки", "raw:", id),
        button("Правка", "edt:", id),
        button("Отмена", "cnl:", id),
    )
}

/// Each button of a card carries its own action and the number of the card.
pub proof fn law_buttons_are_understood(id: u32)
    ensures
        button_of("snd:"@ + text::decimal(id as nat)) == Some(("snd"@, id)),
        button_of("raw:"@ + text::decimal(id as nat)) == Some(("raw"@, id)),
        button_of("edt:"@ + text::decimal(id as nat)) == Some(("edt"@, id)),
        button_of("cnl:"@ + text::decimal(id as nat)) == Some(("cnl"@, id)),
{
    reveal_strlit("snd:");
    reveal_strlit("raw:");
    reveal_strlit("edt:");
    reveal_strlit("cnl:");
    reveal_strlit("snd");
    reveal_strlit("raw");
    reveal_strlit("edt");
    reveal_strlit("cnl");
    lemma_button("snd:"@, "snd"@, id);
    lemma_button("raw:"@, "raw"@, id);
    lemma_button("edt:"@, "edt"@, id);
    lemma_button("cnl:"@, "cnl"@, id);
}

proof fn lemma_button(prefix: Seq<char>, action: Seq<char>, id: u32)
    requires
        prefix =~= action.push(':'),
        forall|i: int| 0 <= i < action.len() ==> #[trigger] action[i] != ':',
    ensures
        button_of(prefix + text::decimal(id as nat)) == Some((action, id)),
{
    let digits = text::decimal(id as nat);
    let data = prefix + digits;
    let n = action.len() as int;
    assert forall|i: int| 0 <= i < n implies #[trigger] data[i] != ':' by {
        assert(data[i] == action[i]);
    }
    assert(data[n] == ':');
    text::lemma_first_place(data, ':', n);
    assert(data.take(n) =~= action);
    assert(data.skip(n + 1) =~= digits);
    numbers::lemma_decimal_round_trip(id as nat);
    assert(numbers::is_digit(digits[0]));
}

/// The text that is sent: the draft, and the label below it where it is to be sent
/// with one.
pub fn payload(draft: &str, label: Option<&str>) -> (r: String)
    ensures
        r@ == match label {
            Some(l) => draft@ + "\n\n"@ + l@,
            None => draft@,
        },
{
    let mut s = draft.to_owned();
    match label {
        Some(l) => {
            s.append("\n\n");
            s.append(l);
        },
        None => {},
    }
    s
}

/// The text that goes out once a draft was judged: none but one that passed, with
/// the label below it or without.
pub open spec fn sent_text(verdict: VerdictView, labeled: bool, label: Seq<char>) -> Option<
    Seq<char>,
> {
    match verdict {
        VerdictView::Approved(text) => Some(
            if labeled {
                text + "\n\n"@ + label
            } else {
                text
            },
        ),
        _ => None,
    }
}

/// The text that goes out once a draft was judged.
pub fn outgoing(verdict: &Verdict, labeled: bool, label: &str) -> (r: Option<String>)
    ensures
        r is Some <==> verdict@ is Approved,
        text::opt_text(r) == sent_text(verdict@, labeled, label@),
{
    match verdict {
        Verdict::Approved(text) => if labeled {
            Some(payload(text.as_str(), Some(label)))
        } else {
            Some(payload(text.as_str(), None))
        },
        _ => None,
    }
}

/// The text that goes out for a press, where `current` is the draft as the task
/// holds it when the press is judged.
pub open spec fn delivered(
    press: Press,
    ttl_seconds: i64,
    now: Timestamp,
    current: Option<Seq<char>>,
    label: Seq<char>,
) -> Option<Seq<char>> {
    match press {
        Press::Send { draft, labeled, .. } => sent_text(
            verdict_on(draft, ttl_seconds, now, with_hash(current)),
            labeled,
            label,
        ),
        _ => None,
    }
}

/// A press of one of the two buttons that send delivers at most one text, and only
/// the draft as it was shown and in time: with the label below it for the first
/// button, as it is for the second. Whatever the verdict, the draft is no longer
/// kept, and a second press with its number delivers nothing.
pub proof fn law_a_press_delivers_what_was_approved(
    drafts: Map<u32, PendingDraft>,
    data: Seq<char>,
    again: Seq<char>,
    ttl_seconds: i64,
    now: Timestamp,
    later: Timestamp,
    current: Option<Seq<char>>,
    label: Seq<char>,
)
    requires
        button_of(data) matches Some((action, id)) && (action == "snd"@ || action == "raw"@)
            && drafts.dom().contains(id),
        button_of(again) matches Some(second) && second.1 == (button_of(data)->0).1,
    ensures
        ({
            let (action, id) = button_of(data)->0;
            let (kept, press) = pressed(drafts, Some(data));
            &&& !kept.dom().contains(id)
            &&& delivered(press, ttl_seconds, now, current, label) == match verdict_on(
                drafts[id],
                ttl_seconds,
                now,
                with_hash(current),
            ) {
                VerdictView::Approved(text) => Some(
                    if action == "snd"@ {
                        text + "\n\n"@ + label
                    } else {
                        text
                    },
                ),
                _ => None,
            }
            &&& delivered(press, ttl_seconds, now, current, label) is Some ==> {
                &&& current is Some
                &&& hash_of(current->0) == drafts[id].text_hash
                &&& !too_late(drafts[id], ttl_seconds, now)
            }
            &&& delivered(
                pressed(kept, Some(again)).1,
                ttl_seconds,
                later,
                current,
                label,
            ) is None
        }),
{
    lemma_actions_differ();
    law_confirmation_is_used_once(drafts, data, again);
}

/// Nothing is delivered for a press that is not one of the two buttons that send.
pub proof fn law_other_presses_deliver_nothing(
    drafts: Map<u32, PendingDraft>,
    data: Option<Seq<char>>,
    ttl_seconds: i64,
    now: Timestamp,
    current: Option<Seq<char>>,
    label: Seq<char>,
)
    requires
        !(data matches Some(d) && button_of(d) matches Some((action, _)) && (action == "snd"@
            || action == "raw"@)),
    ensures
        delivered(pressed(drafts, data).1, ttl_seconds, now, current, label) is None,
{
}

proof fn lemma_actions_differ()
    ensures
        "snd"@ != "cnl"@,
        "snd"@ != "edt"@,
        "raw"@ != "cnl"@,
        "raw"@ != "edt"@,
        "snd"@ != "raw"@,
{
    reveal_strlit("snd");
    reveal_strlit("raw");
    reveal_strlit("edt");
    reveal_strlit("cnl");
    assert("snd"@[0] != "cnl"@[0] && "snd"@[0] != "edt"@[0] && "snd"@[0] != "raw"@[0]);
    assert("raw"@[0] != "cnl"@[0] && "raw"@[0] != "edt"@[0]);
}

/// What is said of a draft that was dealt with.
pub const CANCELLED_NOTE: &'static str = "🚫 Отменено, ничего не отправлено.";

pub const EDIT_NOTE: &'static str = "✏️ Пришли исправленный текст отдельным сообщением — он станет новым черновиком.";

pub const EXPIRED_NOTE: &'static str = "⏳ Подтверждение просрочено. Разговор мог уйти вперёд — сформируй черновик заново.";

pub const CHANGED_NOTE: &'static str = "⚠️ Текст черновика изменился после показа. Подтверждение недействительно — одобряли не это.";

/// What is said where there is no such draft.
pub const NOT_FOUND_NOTE: &'static str = "Подтверждение не найдено или уже использовано.";

/// What is said of a draft whose confirmation does not hold, in the chat and to
/// whoever pressed; nothing where it holds.
pub open spec fn refusal(verdict: VerdictView) -> Option<(Seq<char>, Seq<char>)> {
    match verdict {
        VerdictView::Approved(_) => None,
        VerdictView::Expired => Some((EXPIRED_NOTE@, "Просрочено."@)),
        VerdictView::Changed => Some((CHANGED_NOTE@, "Черновик изменился."@)),
    }
}

/// What is said of a draft whose confirmation does not hold, in the chat and to
/// whoever pressed.
pub fn refusal_notes(verdict: &Verdict) -> (r: Option<(&'static str, &'static str)>)
    ensures
        match r {
            Some((note, answer)) => refusal(verdict@) == Some((note@, answer@)),
            None => refusal(verdict@) is None,
        },
{
    match verdict {
        Verdict::Approved(_) => None,
        Verdict::Expired => Some((EXPIRED_NOTE, "Просрочено.")),
        Verdict::Changed => Some((CHANGED_NOTE, "Черновик изменился.")),
    }
}

/// What is said to whoever pressed when the message could not be sent.
pub const UNDELIVERED_ANSWER: &'static str = "Ошибка отправки.";

/// What is said of a message that was sent, or was not.
pub fn sent_note(labeled: bool, error: Option<&str>) -> (r: String)
    ensures
        r@ == match error {
            Some(e) => "❌ Не отправлено: "@ + e@,
            None => if labeled {
                "✅ Отправлено с пометкой ассистента."@
            } else {
                "✅ Отправлено БЕЗ пометки (по явному решению)."@
            },
        },
{
    match error {
        Some(e) => {
            let mut s = String::from_str("❌ Не отправлено: ");
            s.append(e);
            s
        },
        None => if labeled {
            String::from_str("✅ Отправлено с пометкой ассистента.")
        } else {
            String::from_str("✅ Отправлено БЕЗ пометки (по явному решению).")
        },
    }
}

// The journal of what was sent.

/// A message that was sent.
pub struct AuditRecord {
    pub at: Timestamp,
    pub task_id: u128,
    pub target: String,
    pub text_hash: u64,
    pub labeled: bool,
    pub approval_id: u32,
}

/// The last digits of a number in hexadecimal, so many of them.
pub open spec fn hex_tail(n: nat, digits: nat) -> Seq<char>
    decreases digits,
{
    if digits == 0 {
        Seq::empty()
    } else {
        hex_tail(n / 16, (digits - 1) as nat).push(formats::hex_digit(n % 16))
    }
}

fn write_hex(n: u64, digits: u32) -> (r: String)
    ensures
        r@ == hex_tail(n as nat, digits as nat),
    decreases digits,
{
    if digits == 0 {
        return String::new();
    }
    let mut s = write_hex(n / 16, digits - 1);
    let d: u8 = (n % 16) as u8;
    let c: char = if d < 10 {
        (48u8 + d) as char
    } else {
        (87u8 + d) as char
    };
    s.push(c);
    s
}

/// A text with spaces in place of tabs.
pub open spec fn without_tabs(s: Seq<char>) -> Seq<char> {
    s.map_values(
        |c: char|
            if c == '\t' {
                ' '
            } else {
                c
            },
    )
}

fn replace_tabs(s: &str) -> (r: String)
    ensures
        r@ == without_tabs(s@),
{
    let v = text::chars_of(s);
    let ghost wanted = without_tabs(s@);
    let mut out = String::new();
    let mut i: usize = 0;
    assert(out@ =~= wanted.take(0));
    while i < v.len()
        invariant
            v@ == s@,
            i <= v@.len(),
            wanted == without_tabs(s@),
            out@ == wanted.take(i as int),
        decreases v@.len() - i,
    {
        let c: char = if v[i] == '\t' {
            ' '
        } else {
            v[i]
        };
        out.push(c);
        assert(wanted.take(i + 1) =~= wanted.take(i as int).push(wanted[i as int]));
        i = i + 1;
    }
    assert(wanted.take(wanted.len() as int) =~= wanted);
    out
}

/// The line of the journal on a message that was sent at a time as it is written.
pub open spec fn audit_line(record: AuditRecord, at: Seq<char>) -> Seq<char> {
    at + "\ttask="@ + formats::id_text(record.task_id) + "\ttarget="@ + without_tabs(record.target@)
        + "\thash="@ + hex_tail(record.text_hash as nat, 16) + "\tlabeled="@ + (if record.labeled {
        "true"@
    } else {
        "false"@
    }) + "\tapproval="@ + text::decimal(record.approval_id as nat) + "\n"@
}

/// Adds a line to the text of the journal; what stands there already stays.
/// Nothing is added where the point in time is not one that can be written.
pub fn append_audit(log: &mut String, record: &AuditRecord) -> (r: bool)
    ensures
        r == formats::instant_text(record.at.seconds, record.at.nanos) is Some,
        final(log)@ == match formats::instant_text(record.at.seconds, record.at.nanos) {
            Some(at) => old(log)@ + audit_line(*record, at),
            None => old(log)@,
        },
{
    let at = match formats::write_instant(record.at) {
        Some(at) => at,
        None => {
            return false;
        },
    };
    let mut line = at.clone();
    line.append("\ttask=");
    line.append(formats::write_id(record.task_id).as_str());
    line.append("\ttarget=");
    line.append(replace_tabs(record.target.as_str()).as_str());
    line.append("\thash=");
    line.append(write_hex(record.text_hash, 16).as_str());
    line.append("\tlabeled=");
    if record.labeled {
        line.append("true");
    } else {
        line.append("false");
    }
    line.append("\tapproval=");
    line.append(text::show(record.approval_id as u64).as_str());
    line.append("\n");
    log.append(line.as_str());
    true
}

/// The address to which a new task is posted.
pub fn tasks_url(config: &TelegramConfig) -> (r: String)
    ensures
        r@ == config.api_base_url@ + "/tasks"@,
{
    let mut url = config.api_base_url.clone();
    url.append("/tasks");
    url
}

/// The address of a task.
pub fn task_url(config: &TelegramConfig, id: u128) -> (r: String)
    ensures
        r@ == config.api_base_url@ + "/tasks/"@ + formats::id_text(id),
{
    let mut url = config.api_base_url.clone();
    url.append("/tasks/");
    url.append(formats::write_id(id).as_str());
    url
}

/// A stranger is told one thing, whatever they wrote, and gives no task; whoever may use
/// the bot gives what they wrote, word for word, unless it is blank, and is told so
/// where it is no text. A new owner is greeted first.
pub proof fn law_only_the_owner_gives_tasks(said: Option<Seq<char>>)
    ensures
        task_from(OwnerDecision::Denied, said) is None,
        replies_to(OwnerDecision::Denied, said) == seq!["Недоступно."@],
        said matches Some(t) ==> (!text::is_blank(t) ==> task_from(OwnerDecision::Allowed, said)
            == Some(t) && task_from(OwnerDecision::Claimed, said) == Some(t)),
        said matches Some(t) ==> (text::is_blank(t) ==> task_from(OwnerDecision::Allowed, said)
            is None && task_from(OwnerDecision::Claimed, said) is None),
        said is None ==> task_from(OwnerDecision::Allowed, said) is None && task_from(
            OwnerDecision::Claimed,
            said,
        ) is None,
        said is Some ==> replies_to(OwnerDecision::Allowed, said).len() == 0 && replies_to(
            OwnerDecision::Claimed,
            said,
        ) == seq!["Готов к работе."@],
        said is None ==> replies_to(OwnerDecision::Allowed, said) == seq!["Понимаю только текст."@]
            && replies_to(OwnerDecision::Claimed, said) == seq![
            "Готов к работе."@,
            "Понимаю только текст."@,
        ],
{
    let none = Seq::<Seq<char>>::empty();
    assert(replies_to(OwnerDecision::Claimed, said) =~= if said is None {
        seq!["Готов к работе."@, "Понимаю только текст."@]
    } else {
        seq!["Готов к работе."@]
    });
    assert(replies_to(OwnerDecision::Allowed, said) =~= if said is None {
        seq!["Понимаю только текст."@]
    } else {
        none
    });
}

/// Without a file there is no owner, nor with one that holds no number; white space
/// around the number does not count.
pub proof fn law_the_file_names_the_owner(raw: Seq<char>)
    ensures
        owner_in(None) is None,
        owner_in(Some(raw)) == numbers::signed_value(text::trimmed(raw)),
        owner_in(Some(text::trimmed(raw))) == owner_in(Some(raw)),
{
    text::lemma_trimmed_twice(raw);
}

/// Whether the last entry of a role stands at a place.
pub open spec fn is_last_of(context: Seq<ApiContextEntry>, role: Seq<char>, k: int) -> bool {
    &&& 0 <= k < context.len()
    &&& context[k].role@ == role
    &&& forall|i: int| k < i < context.len() ==> (#[trigger] context[i]).role@ != role
}

/// The last entry of a role is found, whatever entries of other roles stand behind it;
/// none is found where there is none.
pub proof fn law_the_last_entry_of_a_role_counts(
    context: Seq<ApiContextEntry>,
    role: Seq<char>,
    k: int,
)
    ensures
        is_last_of(context, role, k) ==> last_of(context, role) == Some(context[k].content@),
        (forall|i: int| 0 <= i < context.len() ==> (#[trigger] context[i]).role@ != role)
            ==> last_of(context, role) is None,
    decreases context.len(),
{
    if context.len() > 0 {
        let before = context.drop_last();
        law_the_last_entry_of_a_role_counts(before, role, k);
        if is_last_of(context, role, k) && k < context.len() - 1 {
            assert(context[context.len() - 1].role@ != role);
            assert(before[k] == context[k]);
            assert forall|i: int| k < i < before.len() implies (#[trigger] before[i]).role@
                != role by {
                assert(before[i] == context[i]);
            }
            assert(is_last_of(before, role, k));
        }
        if forall|i: int| 0 <= i < context.len() ==> (#[trigger] context[i]).role@ != role {
            assert(context[context.len() - 1].role@ != role);
            assert forall|i: int| 0 <= i < before.len() implies (#[trigger] before[i]).role@
                != role by {
                assert(before[i] == context[i]);
            }
        }
    }
}

/// Of a task that is done the last answer is told, and the file that goes with it; of
/// one that waits the last draft is offered; of one that failed the last note is told.
/// A draft or a note is never told as an answer.
pub proof fn law_the_bot_tells_the_last_of_a_task(context: Seq<ApiContextEntry>, k: int, j: int)
    ensures
        is_last_of(context, "assistant"@, k) ==> (report_on("done"@, context)
            matches ReportView::Answer { answer, .. } && answer == context[k].content@),
        (forall|i: int| 0 <= i < context.len() ==> (#[trigger] context[i]).role@ != "assistant"@)
            ==> (report_on("done"@, context) matches ReportView::Answer { answer, .. } && answer
            == NO_ANSWER@),
        is_last_of(context, "artifact"@, j) ==> (report_on("done"@, context)
            matches ReportView::Answer { artifact, .. } && artifact == Some(context[j].content@)),
        (forall|i: int| 0 <= i < context.len() ==> (#[trigger] context[i]).role@ != "artifact"@)
            ==> (report_on("done"@, context) matches ReportView::Answer { artifact, .. } && artifact
            is None),
        is_last_of(context, "draft"@, k) ==> report_on("waiting_for_human"@, context)
            == ReportView::Offer(context[k].content@),
        (forall|i: int| 0 <= i < context.len() ==> (#[trigger] context[i]).role@ != "draft"@)
            ==> report_on("waiting_for_human"@, context) == ReportView::Line(NO_DRAFT@),
        is_last_of(context, "system"@, k) ==> report_on("failed"@, context) == ReportView::Line(
            "❌ Задача завершилась ошибкой: "@ + context[k].content@,
        ),
{
    lemma_states_differ();
    law_the_last_entry_of_a_role_counts(context, "assistant"@, k);
    law_the_last_entry_of_a_role_counts(context, "artifact"@, j);
    law_the_last_entry_of_a_role_counts(context, "draft"@, k);
    law_the_last_entry_of_a_role_counts(context, "system"@, k);
}

/// Of a task in any other state that state is told.
pub proof fn law_other_states_are_told(status: Seq<char>, context: Seq<ApiContextEntry>)
    requires
        status != "waiting_for_human"@,
        status != "done"@,
        status != "failed"@,
    ensures
        report_on(status, context) == ReportView::Line("ℹ️ Задача в состоянии «"@ + status + "»."@),
{
}

/// A task is watched until it is done, has failed, was called off, or waits for a
/// decision, and no longer; running or laid aside it is watched on.
pub proof fn law_a_task_is_watched_to_its_end(status: crate::task_store::TaskStatus)
    ensures
        is_final(status.word()) <==> status == crate::task_store::TaskStatus::Done || status == crate::task_store::TaskStatus::Failed || status
            == crate::task_store::TaskStatus::Cancelled || status == crate::task_store::TaskStatus::WaitingForHuman,
{
    crate::task_store::law_words_differ();
    crate::task_store::law_states_have_their_words();
    assert(is_final(status.word()) <==> status.word() == crate::task_store::TaskStatus::Done.word() || status.word()
        == crate::task_store::TaskStatus::Failed.word() || status.word() == crate::task_store::TaskStatus::Cancelled.word() || status.word()
        == crate::task_store::TaskStatus::WaitingForHuman.word());
}

/// A button carries an action, a colon and a number, which counts up to what 32 bits
/// hold; what has no colon, or no such number behind the first one, means nothing.
pub proof fn law_a_button_is_an_action_and_a_number(
    action: Seq<char>,
    rest: Seq<char>,
)
    requires
        forall|i: int| 0 <= i < action.len() ==> #[trigger] action[i] != ':',
    ensures
        button_of(action) is None,
        match numbers::unsigned_value(rest, 0xffff_ffff) {
            Some(n) => button_of(action.push(':') + rest) == Some((action, n as u32)),
            None => button_of(action.push(':') + rest) is None,
        },
{
    let data = action.push(':') + rest;
    text::lemma_first_place(data, ':', action.len() as int);
    text::lemma_first_of(action, ':');
    if text::first_of(action, ':') < action.len() {
        assert(action[text::first_of(action, ':')] == ':');
    }
    assert(data.take(action.len() as int) =~= action);
    assert(data.skip(action.len() as int + 1) =~= rest);
}

/// A press is for the draft with its number: each of the four actions does its own with
/// that draft, no other draft is touched, and a number of which there is no draft finds
/// nothing. What carries no action and number changes nothing.
pub proof fn law_a_press_is_for_its_own_draft(
    drafts: Map<u32, PendingDraft>,
    data: Seq<char>,
    other: u32,
)
    ensures
        pressed(drafts, None) == (drafts, Press::Ignored),
        button_of(data) is None ==> pressed(drafts, Some(data)) == (drafts, Press::Ignored),
        button_of(data) matches Some((action, id)) ==> {
            let (kept, press) = pressed(drafts, Some(data));
            &&& !drafts.dom().contains(id) ==> press == Press::NotFound && kept == drafts
            &&& drafts.dom().contains(id) && action == "cnl"@ ==> press == Press::Cancel(drafts[id])
            &&& drafts.dom().contains(id) && action == "edt"@ ==> press == Press::Edit(drafts[id])
            &&& drafts.dom().contains(id) && action == "snd"@ ==> press == (Press::Send {
                id,
                draft: drafts[id],
                labeled: true,
            })
            &&& drafts.dom().contains(id) && action == "raw"@ ==> press == (Press::Send {
                id,
                draft: drafts[id],
                labeled: false,
            })
            &&& other != id && drafts.dom().contains(other) ==> kept.dom().contains(other)
                && kept[other] == drafts[other]
            &&& !kept.dom().contains(id)
        },
{
    lemma_actions_differ();
    reveal_strlit("cnl");
    reveal_strlit("edt");
    assert("cnl"@[0] != "edt"@[0]);
    if button_of(data) is Some {
        let id = (button_of(data)->0).1;
        if !drafts.dom().contains(id) {
            assert(drafts.remove(id) =~= drafts);
        }
    }
}

/// A confirmation is good up to its last second, and no longer than that: for a term
/// that is not negative it comes too late exactly if a second more than the term has
/// passed.
pub proof fn law_a_confirmation_is_good_for_its_term(
    pending: PendingDraft,
    ttl_seconds: i64,
    now: Timestamp,
)
    requires
        ttl_seconds >= 0,
    ensures
        too_late(pending, ttl_seconds, now) <==> (now.seconds - pending.created_at.seconds)
            * 1_000_000_000 + (now.nanos - pending.created_at.nanos) >= (ttl_seconds + 1)
            * 1_000_000_000,
{
    clock::law_time_is_counted_in_whole_units(pending.created_at, now);
}

/// A draft that is judged in time passes with its own text exactly if the task holds one
/// with the hash of what was shown; what does not pass is told apart from what came too
/// late, and nothing of either is sent.
pub proof fn law_a_changed_draft_is_not_sent(
    pending: PendingDraft,
    ttl_seconds: i64,
    now: Timestamp,
    current: Option<Seq<char>>,
    labeled: bool,
    label: Seq<char>,
)
    ensures
        ({
            let v = verdict_on(pending, ttl_seconds, now, with_hash(current));
            &&& v is Expired <==> too_late(pending, ttl_seconds, now)
            &&& v is Changed <==> !too_late(pending, ttl_seconds, now) && !(current matches Some(t)
                && hash_of(t) == pending.text_hash)
            &&& v matches VerdictView::Approved(t) ==> current == Some(t)
            &&& sent_text(v, labeled, label) is Some <==> v is Approved
            &&& v matches VerdictView::Approved(t) ==> sent_text(v, false, label) == Some(t)
                && sent_text(v, true, label) == Some(t + "\n\n"@ + label)
            &&& v is Approved <==> refusal(v) is None
            &&& v is Expired ==> refusal(v) == Some((EXPIRED_NOTE@, "Просрочено."@))
            &&& v is Changed ==> refusal(v) == Some((CHANGED_NOTE@, "Черновик изменился."@))
        }),
{
}

/// The draft that is judged is the last one of the task.
pub proof fn law_the_last_draft_is_judged(task: ApiTask, k: int)
    ensures
        draft_of(None) is None,
        is_last_of(task.context@, "draft"@, k) ==> draft_of(Some(&task)) == Some(
            task.context@[k].content@,
        ),
{
    law_the_last_entry_of_a_role_counts(task.context@, "draft"@, k);
}

/// A number in hexadecimal has as many digits as are asked for, the last of them for
/// what is left over when it is divided by sixteen.
pub proof fn law_hexadecimal_digits(n: nat, digits: nat)
    ensures
        hex_tail(n, digits).len() == digits,
        digits > 0 ==> hex_tail(n, digits).drop_last() == hex_tail(n / 16, (digits - 1) as nat),
        digits > 0 ==> hex_tail(n, digits).last() == "0123456789abcdef"@[(n % 16) as int],
    decreases digits,
{
    reveal_strlit("0123456789abcdef");
    if digits > 0 {
        law_hexadecimal_digits(n / 16, (digits - 1) as nat);
        assert(hex_tail(n, digits).drop_last() =~= hex_tail(n / 16, (digits - 1) as nat));
    }
}

/// A message that was sent leaves one line, which tells when, for which task, to whom,
/// what by its hash, with the label or without, and by which confirmation; a tab in the
/// name of whom it went to becomes a space, so that the parts are told apart.
pub proof fn law_a_sent_message_leaves_a_line(record: AuditRecord, at: Seq<char>, i: int)
    ensures
        audit_line(record, at) == at + "\ttask="@ + formats::id_text(record.task_id) + "\ttarget="@
            + without_tabs(record.target@) + "\thash="@ + hex_tail(record.text_hash as nat, 16) + (
        if record.labeled {
            "\tlabeled=true"@
        } else {
            "\tlabeled=false"@
        }) + "\tapproval="@ + text::decimal(record.approval_id as nat) + "\n"@,
        without_tabs(record.target@).len() == record.target@.len(),
        0 <= i < record.target@.len() ==> without_tabs(record.target@)[i] == if record.target@[i]
            == '\t' {
            ' '
        } else {
            record.target@[i]
        },
{
    reveal_strlit("\tlabeled=true");
    reveal_strlit("\tlabeled=false");
    reveal_strlit("\tlabeled=");
    reveal_strlit("true");
    reveal_strlit("false");
    assert("\tlabeled="@ + "true"@ =~= "\tlabeled=true"@);
    assert("\tlabeled="@ + "false"@ =~= "\tlabeled=false"@);
    let word = if record.labeled {
        "true"@
    } else {
        "false"@
    };
    let before = at + "\ttask="@ + formats::id_text(record.task_id) + "\ttarget="@ + without_tabs(
        record.target@,
    ) + "\thash="@ + hex_tail(record.text_hash as nat, 16);
    let after = "\tapproval="@ + text::decimal(record.approval_id as nat) + "\n"@;
    assert(before + "\tlabeled="@ + word =~= before + ("\tlabeled="@ + word));
}

/// The hash of a text is that of all its bytes, and of one more that closes it, so that
/// it is the same for the same text and goes by the whole of it.
pub proof fn law_a_hash_is_of_the_whole_text(t: Seq<char>)
    ensures
        hash_of(t) == DefaultHasher::spec_finish(seq![encode_utf8(t), seq![255u8]]),
{
}

} // verus!
