//! The course of a media task: which step comes after which.
//!
//! The steps themselves are asking a model, searching, downloading and rendering.
//! They are done around the library; what came of each is handed back, and says
//! which one is next.

use crate::clock::Timestamp;
use crate::control_center_api;
use crate::media::credits;
use crate::media::credits::{PlanView, RenderPlan};
use crate::media::fetch::{DownloadedAsset, FetchError, ImageFormat};
use crate::media::gate::AssetView;
use crate::media::pipeline;
use crate::media::pipeline::{Fetching, FetchingView, FileView, Search, SearchStep, SearchView};
use crate::media::provenance::ManifestEntry;
use crate::media::render::{RenderError, RenderOutcome};
use crate::model_backend;
use crate::model_backend::{GenerateResponse, Message, MessageView, ResponseView};
use crate::task_store::{TaskStore, TaskView};
use vstd::prelude::*;

verus! {

/// Where a media task stands.
#[verifier::ext_equal]
pub enum PhaseView {
    /// The model is to be asked for words to search for, on this text.
    Extracting(Seq<char>),
    /// Pictures are searched for.
    Searching(SearchView),
    /// The admitted pictures are downloaded.
    Fetching(FetchingView),
    /// The video is to be rendered, by this plan and of these files.
    Rendering(PlanView, Seq<FileView>),
    /// The task is over, in whatever way.
    Over,
}

/// Where a media task stands, and all tasks.
pub type Course = (PhaseView, Map<u128, TaskView>);

/// A media task begins. Without words of the user it fails.
pub open spec fn begun(
    tasks: Map<u128, TaskView>,
    id: u128,
    messages: Seq<MessageView>,
    now: Timestamp,
) -> Course {
    match pipeline::subject(messages) {
        Some(raw_text) => (PhaseView::Extracting(raw_text), tasks),
        None => (
            PhaseView::Over,
            control_center_api::failed(
                tasks,
                id,
                "в задаче нет пользовательского текста для поиска материалов"@,
                now,
            ),
        ),
    }
}

/// The model replied, or did not: the search begins.
pub open spec fn after_extraction(
    tasks: Map<u128, TaskView>,
    id: u128,
    raw_text: Seq<char>,
    reply: Result<ResponseView, Seq<char>>,
    elapsed_ms: u128,
    now: Timestamp,
) -> Course {
    let query = pipeline::extracted(raw_text, reply);
    (
        PhaseView::Searching(
            SearchView { query, attempts: pipeline::attempts_for(query, raw_text), tried: 0 },
        ),
        control_center_api::noted(
            control_center_api::noted(
                tasks,
                id,
                pipeline::extraction_note(raw_text, reply, elapsed_ms),
                now,
            ),
            id,
            pipeline::search_note(query),
            now,
        ),
    )
}

/// What was found goes through admission; what passes is downloaded.
pub open spec fn after_candidates(
    tasks: Map<u128, TaskView>,
    id: u128,
    entries: Seq<ManifestEntry>,
    used_query: Seq<char>,
    now: Timestamp,
) -> Course {
    let manifest = pipeline::manifest_of(entries);
    let admitted = pipeline::passing(manifest, pipeline::ids_of(entries));
    (
        if admitted.len() == 0 {
            PhaseView::Over
        } else {
            PhaseView::Fetching(
                FetchingView {
                    manifest,
                    admitted,
                    next: 0,
                    downloaded: Seq::empty(),
                    usable: Seq::empty(),
                    failures: Seq::empty(),
                },
            )
        },
        pipeline::screened(tasks, id, entries, used_query, now),
    )
}

/// A search has ended: with pictures, with none, or with an error. With none the
/// next words are searched for, as long as there are any.
pub open spec fn after_search(
    tasks: Map<u128, TaskView>,
    id: u128,
    search: SearchView,
    result: Result<Seq<ManifestEntry>, Seq<char>>,
    now: Timestamp,
) -> Course {
    let words = search.attempts[search.tried];
    match result {
        Err(e) => (
            PhaseView::Over,
            control_center_api::failed(tasks, id, "источник недоступен: "@ + e, now),
        ),
        Ok(entries) => if entries.len() > 0 {
            after_candidates(tasks, id, entries, words, now)
        } else {
            let told = control_center_api::noted(tasks, id, pipeline::nothing_note(words), now);
            if search.tried + 1 < search.attempts.len() {
                (PhaseView::Searching(search.empty_handed()), told)
            } else {
                after_candidates(told, id, Seq::empty(), search.query, now)
            }
        },
    }
}

/// A download has ended: the next one is due, and after the last one what arrived
/// is to be rendered.
pub open spec fn after_download(
    tasks: Map<u128, TaskView>,
    id: u128,
    fetching: FetchingView,
    outcome: Result<(String, u64, ImageFormat), FetchError>,
    target_dir: Seq<char>,
    now: Timestamp,
) -> Course {
    let f = fetching.after(outcome);
    if f.next < f.admitted.len() {
        (PhaseView::Fetching(f), tasks)
    } else {
        (
            if f.usable.len() == 0 {
                PhaseView::Over
            } else {
                PhaseView::Rendering(credits::plan_of(f.usable), f.downloaded)
            },
            pipeline::fetched_all(tasks, id, f, target_dir, now),
        )
    }
}

/// The step that is next.
pub enum VideoAction<'a> {
    /// Ask the model for words to search for, on this text.
    Extract(&'a str),
    /// Search for these words.
    Search(&'a str),
    /// Download this picture.
    Fetch(&'a ManifestEntry),
    /// Render the video.
    Render { plan: &'a RenderPlan, files: &'a Vec<DownloadedAsset> },
    /// There is nothing to be done any more.
    Finished,
}

/// Whether a step is the one that a phase calls for.
pub open spec fn called_for(phase: PhaseView, action: VideoAction) -> bool {
    match phase {
        PhaseView::Extracting(raw_text) => action matches VideoAction::Extract(t) && t@ == raw_text,
        PhaseView::Searching(s) => action matches VideoAction::Search(words) && words@
            == s.attempts[s.tried],
        PhaseView::Fetching(f) => action matches VideoAction::Fetch(entry) && *entry
            == f.manifest[f.admitted[f.next].asset_id],
        PhaseView::Rendering(p, there) => action matches VideoAction::Render { plan, files }
            && plan@ == p && pipeline::files(files@) == there,
        PhaseView::Over => action is Finished,
    }
}

enum Phase {
    Extracting(String),
    Searching(Search),
    Fetching(Fetching),
    Rendering(RenderPlan, Vec<DownloadedAsset>),
    Over,
}

/// A media task under way.
pub struct VideoTask {
    id: u128,
    target_dir: String,
    phase: Phase,
}

impl VideoTask {
    /// The task.
    pub closed spec fn of(&self) -> u128 {
        self.id
    }

    /// Where the downloads are kept.
    pub closed spec fn dir(&self) -> Seq<char> {
        self.target_dir@
    }

    /// Where the task stands.
    pub closed spec fn phase(&self) -> PhaseView {
        match self.phase {
            Phase::Extracting(raw_text) => PhaseView::Extracting(raw_text@),
            Phase::Searching(search) => PhaseView::Searching(search@),
            Phase::Fetching(fetching) => PhaseView::Fetching(fetching@),
            Phase::Rendering(plan, files) => PhaseView::Rendering(
                plan@,
                pipeline::files(files@),
            ),
            Phase::Over => PhaseView::Over,
        }
    }

    #[verifier::type_invariant]
    spec fn has_a_next_step(self) -> bool {
        match self.phase() {
            PhaseView::Searching(s) => s.tried < s.attempts.len(),
            PhaseView::Fetching(f) => f.next < f.admitted.len(),
            _ => true,
        }
    }

    /// Begins a media task.
    pub fn begin(store: &mut TaskStore, id: u128, messages: &Vec<Message>, now: Timestamp) -> (r:
        VideoTask)
        ensures
            r.of() == id,
            r.dir() == pipeline::cache_dir(id),
            (r.phase(), final(store)@) == begun(
                old(store)@,
                id,
                model_backend::messages(messages@),
                now,
            ),
    {
        let phase = match pipeline::begin(store, id, messages, now) {
            Some(raw_text) => Phase::Extracting(raw_text),
            None => Phase::Over,
        };
        VideoTask { id, target_dir: pipeline::media_cache_dir(id), phase }
    }

    /// Where the downloads are kept.
    pub fn target_dir(&self) -> (r: &str)
        ensures
            r@ == self.dir(),
    {
        self.target_dir.as_str()
    }

    /// The step that is next.
    pub fn next(&self) -> (r: VideoAction<'_>)
        ensures
            called_for(self.phase(), r),
    {
        proof {
            use_type_invariant(self);
        }
        match &self.phase {
            Phase::Extracting(raw_text) => VideoAction::Extract(raw_text.as_str()),
            Phase::Searching(search) => match search.next() {
                Some(words) => VideoAction::Search(words),
                None => VideoAction::Finished,
            },
            Phase::Fetching(fetching) => match fetching.next() {
                Some(entry) => VideoAction::Fetch(entry),
                None => VideoAction::Finished,
            },
            Phase::Rendering(plan, files) => VideoAction::Render { plan, files },
            Phase::Over => VideoAction::Finished,
        }
    }

    /// Takes the phase out, for the time of a step.
    fn take_phase(&mut self) -> (r: Phase)
        ensures
            r == old(self).phase,
            final(self).id == old(self).id,
            final(self).target_dir == old(self).target_dir,
            final(self).phase is Over,
    {
        proof {
            use_type_invariant(&*self);
        }
        let mut phase = Phase::Over;
        core::mem::swap(&mut phase, &mut self.phase);
        phase
    }

    /// Takes the model's reply, or why there is none.
    pub fn extracted(
        &mut self,
        store: &mut TaskStore,
        reply: Result<GenerateResponse, String>,
        elapsed_ms: u128,
        now: Timestamp,
    )
        ensures
            final(self).of() == old(self).of(),
            final(self).dir() == old(self).dir(),
            (final(self).phase(), final(store)@) == match old(self).phase() {
                PhaseView::Extracting(raw_text) => after_extraction(
                    old(store)@,
                    old(self).of(),
                    raw_text,
                    pipeline::reply_view(reply),
                    elapsed_ms,
                    now,
                ),
                phase => (phase, old(store)@),
            },
    {
        proof {
            use_type_invariant(&*self);
        }
        let phase = self.take_phase();
        self.phase = match phase {
            Phase::Extracting(raw_text) => {
                let query = pipeline::extract_search_term(
                    store,
                    self.id,
                    raw_text.as_str(),
                    reply,
                    elapsed_ms,
                    now,
                );
                proof {
                    pipeline::law_own_words_are_tried(query@, raw_text@);
                }
                Phase::Searching(Search::begin(store, self.id, query, raw_text.as_str(), now))
            },
            other => other,
        };
    }

    /// Takes what was found, or why the source cannot be reached.
    pub fn found(
        &mut self,
        store: &mut TaskStore,
        result: Result<Vec<ManifestEntry>, String>,
        now: Timestamp,
    )
        ensures
            final(self).of() == old(self).of(),
            final(self).dir() == old(self).dir(),
            (final(self).phase(), final(store)@) == match old(self).phase() {
                PhaseView::Searching(search) => after_search(
                    old(store)@,
                    old(self).of(),
                    search,
                    found_view(result),
                    now,
                ),
                phase => (phase, old(store)@),
            },
    {
        proof {
            use_type_invariant(&*self);
        }
        let phase = self.take_phase();
        self.phase = match phase {
            Phase::Searching(search) => {
                let mut search = search;
                match search.found(store, self.id, result, now) {
                    SearchStep::Again => Phase::Searching(search),
                    SearchStep::Failed => Phase::Over,
                    SearchStep::Candidates { entries, used_query } => {
                        assert(entries@.len() == 0 ==> entries@ =~= Seq::empty());
                        match Fetching::screen(store, self.id, entries, used_query.as_str(), now) {
                            Some(fetching) => Phase::Fetching(fetching),
                            None => Phase::Over,
                        }
                    },
                }
            },
            other => other,
        };
    }

    /// Takes what came of a download.
    pub fn fetched(
        &mut self,
        store: &mut TaskStore,
        outcome: Result<(String, u64, ImageFormat), FetchError>,
        now: Timestamp,
    )
        ensures
            final(self).of() == old(self).of(),
            final(self).dir() == old(self).dir(),
            (final(self).phase(), final(store)@) == match old(self).phase() {
                PhaseView::Fetching(fetching) => after_download(
                    old(store)@,
                    old(self).of(),
                    fetching,
                    outcome,
                    old(self).dir(),
                    now,
                ),
                phase => (phase, old(store)@),
            },
    {
        proof {
            use_type_invariant(&*self);
        }
        let phase = self.take_phase();
        self.phase = match phase {
            Phase::Fetching(fetching) => {
                let mut fetching = fetching;
                fetching.fetched(outcome);
                if fetching.next().is_some() {
                    Phase::Fetching(fetching)
                } else {
                    match fetching.conclude(store, self.id, self.target_dir.as_str(), now) {
                        Some((plan, files)) => Phase::Rendering(plan, files),
                        None => Phase::Over,
                    }
                }
            },
            other => other,
        };
    }

    /// Takes the rendered video, or why there is none.
    pub fn rendered(
        &mut self,
        store: &mut TaskStore,
        outcome: Result<RenderOutcome, RenderError>,
        now: Timestamp,
    )
        ensures
            final(self).of() == old(self).of(),
            final(self).dir() == old(self).dir(),
            (final(self).phase(), final(store)@) == match old(self).phase() {
                PhaseView::Rendering(plan, files) => (
                    PhaseView::Over,
                    pipeline::delivered(old(store)@, old(self).of(), plan, files, outcome, now),
                ),
                phase => (phase, old(store)@),
            },
    {
        proof {
            use_type_invariant(&*self);
        }
        let phase = self.take_phase();
        self.phase = match phase {
            Phase::Rendering(plan, files) => {
                pipeline::deliver(store, self.id, &plan, &files, outcome, now);
                Phase::Over
            },
            other => other,
        };
    }
}

/// How far a media task is from its end: by phase, and by what is left to try
/// within the phase.
pub open spec fn distance(phase: PhaseView) -> (nat, int) {
    match phase {
        PhaseView::Extracting(_) => (4, 0),
        PhaseView::Searching(s) => (3, s.attempts.len() - s.tried),
        PhaseView::Fetching(f) => (2, f.admitted.len() - f.next),
        PhaseView::Rendering(_, _) => (1, 0),
        PhaseView::Over => (0, 0),
    }
}

/// Whether one distance is less than another.
pub open spec fn nearer(a: (nat, int), b: (nat, int)) -> bool {
    a.0 < b.0 || (a.0 == b.0 && 0 <= a.1 < b.1)
}

/// A media task comes to an end: every step leads nearer to it, whatever came of
/// the step.
pub proof fn law_every_step_leads_on(
    tasks: Map<u128, TaskView>,
    id: u128,
    phase: PhaseView,
    reply: Result<ResponseView, Seq<char>>,
    elapsed_ms: u128,
    found: Result<Seq<ManifestEntry>, Seq<char>>,
    outcome: Result<(String, u64, ImageFormat), FetchError>,
    target_dir: Seq<char>,
    now: Timestamp,
)
    ensures
        phase matches PhaseView::Extracting(raw_text) ==> nearer(
            distance(after_extraction(tasks, id, raw_text, reply, elapsed_ms, now).0),
            distance(phase),
        ),
        phase matches PhaseView::Searching(s) ==> nearer(
            distance(after_search(tasks, id, s, found, now).0),
            distance(phase),
        ),
        phase matches PhaseView::Fetching(f) ==> nearer(
            distance(after_download(tasks, id, f, outcome, target_dir, now).0),
            distance(phase),
        ),
{
}

/// What is rendered is what was admitted: of sound assets, each of them downloaded,
/// the plan for exactly the files that are there.
pub open spec fn in_order(phase: PhaseView) -> bool {
    match phase {
        PhaseView::Fetching(f) => {
            &&& 0 <= f.next <= f.admitted.len()
            &&& forall|i: int| 0 <= i < f.admitted.len() ==> (#[trigger] f.admitted[i]).sound()
            &&& forall|i: int| 0 <= i < f.usable.len() ==> (#[trigger] f.usable[i]).sound()
            &&& pipeline::files_of(f.downloaded, f.usable)
        },
        PhaseView::Rendering(plan, files) => {
            &&& files.len() > 0
            &&& exists|usable: Seq<AssetView>|
                plan == #[trigger] credits::plan_of(usable) && pipeline::files_of(files, usable)
                    && forall|i: int| 0 <= i < usable.len() ==> (#[trigger] usable[i]).sound()
        },
        _ => true,
    }
}

/// A video is rendered of admitted pictures alone: the downloads begin with what
/// passed admission, and the plan is for those of them that arrived.
pub proof fn law_only_admitted_pictures_are_rendered(
    tasks: Map<u128, TaskView>,
    id: u128,
    search: SearchView,
    found: Result<Seq<ManifestEntry>, Seq<char>>,
    fetching: FetchingView,
    outcome: Result<(String, u64, ImageFormat), FetchError>,
    target_dir: Seq<char>,
    now: Timestamp,
)
    requires
        in_order(PhaseView::Fetching(fetching)),
        fetching.next < fetching.admitted.len(),
    ensures
        in_order(after_search(tasks, id, search, found, now).0),
        in_order(after_download(tasks, id, fetching, outcome, target_dir, now).0),
{
    match found {
        Ok(entries) => {
            pipeline::law_gate_decides_on_every_asset(
                pipeline::manifest_of(entries),
                pipeline::ids_of(entries),
            );
        },
        Err(_) => {},
    }
    let f = fetching.after(outcome);
    assert(fetching.admitted[fetching.next].sound());
    assert(in_order(PhaseView::Fetching(f)));
    if f.next >= f.admitted.len() && f.usable.len() > 0 {
        assert(credits::plan_of(f.usable) == credits::plan_of(f.usable));
    }
}

/// The view of what was found.
pub open spec fn found_view(result: Result<Vec<ManifestEntry>, String>) -> Result<
    Seq<ManifestEntry>,
    Seq<char>,
> {
    match result {
        Ok(entries) => Ok(entries@),
        Err(e) => Err(e@),
    }
}

/// A media task begins with the user's words, which the model is asked about; without
/// them it is over, and a running task has failed.
pub proof fn law_a_media_task_begins_with_the_users_words(
    tasks: Map<u128, TaskView>,
    id: u128,
    messages: Seq<MessageView>,
    now: Timestamp,
)
    requires
        tasks.dom().contains(id),
        tasks[id].status == crate::task_store::TaskStatus::Running,
    ensures
        pipeline::subject(messages) matches Some(said) ==> begun(tasks, id, messages, now) == (
            PhaseView::Extracting(said),
            tasks,
        ),
        pipeline::subject(messages) is None ==> begun(tasks, id, messages, now).0 is Over && begun(
            tasks,
            id,
            messages,
            now,
        ).1[id].status == crate::task_store::TaskStatus::Failed,
{
}

/// After the model's reply the search begins with all of the words that came of it, and
/// both the reply and the search are noted.
pub proof fn law_the_search_begins_with_all_words(
    tasks: Map<u128, TaskView>,
    id: u128,
    raw_text: Seq<char>,
    reply: Result<ResponseView, Seq<char>>,
    elapsed_ms: u128,
    now: Timestamp,
)
    ensures
        ({
            let (phase, after) = after_extraction(tasks, id, raw_text, reply, elapsed_ms, now);
            let words = pipeline::extracted(raw_text, reply);
            &&& phase is Searching
            &&& phase->Searching_0.tried == 0
            &&& phase->Searching_0.query == words
            &&& phase->Searching_0.attempts.contains(raw_text)
            &&& tasks.dom().contains(id) ==> {
                let c = after[id].context;
                let n = tasks[id].context.len() as int;
                &&& c.len() == n + 2
                &&& c[n].content == pipeline::extraction_note(raw_text, reply, elapsed_ms)
                &&& c[n + 1].content == pipeline::search_note(words)
                &&& after[id].status == tasks[id].status
            }
        }),
{
    pipeline::law_own_words_are_tried(pipeline::extracted(raw_text, reply), raw_text);
}

/// The first search that finds anything ends the searching: what it found goes through
/// admission. One that finds nothing is followed by the next, in the order of the
/// attempts, and by none after the last. A source that cannot be reached ends the task.
pub proof fn law_the_first_find_ends_the_search(
    tasks: Map<u128, TaskView>,
    id: u128,
    search: SearchView,
    entries: Seq<ManifestEntry>,
    e: Seq<char>,
    now: Timestamp,
)
    requires
        0 <= search.tried < search.attempts.len(),
        tasks.dom().contains(id),
        tasks[id].status == crate::task_store::TaskStatus::Running,
    ensures
        ({
            let (phase, after) = after_search(tasks, id, search, Err(e), now);
            &&& phase is Over
            &&& after[id].status == crate::task_store::TaskStatus::Failed
            &&& after[id].context.last().content == "Ошибка: источник недоступен: "@ + e
        }),
        entries.len() > 0 ==> {
            let (phase, after) = after_search(tasks, id, search, Ok(entries), now);
            let admitted = pipeline::passing(
                pipeline::manifest_of(entries),
                pipeline::ids_of(entries),
            );
            &&& admitted.len() == 0 ==> phase is Over
            &&& admitted.len() > 0 ==> phase is Fetching && phase->Fetching_0.admitted == admitted
                && phase->Fetching_0.manifest == pipeline::manifest_of(entries)
                && phase->Fetching_0.next == 0 && phase->Fetching_0.downloaded.len() == 0
                && phase->Fetching_0.usable.len() == 0 && phase->Fetching_0.failures.len() == 0
        },
        search.tried + 1 < search.attempts.len() ==> {
            let (phase, after) = after_search(tasks, id, search, Ok(Seq::empty()), now);
            &&& phase is Searching
            &&& phase->Searching_0.tried == search.tried + 1
            &&& phase->Searching_0.attempts == search.attempts
            &&& phase->Searching_0.query == search.query
            &&& after[id].status == crate::task_store::TaskStatus::Running
            &&& after[id].context.len() == tasks[id].context.len() + 1
        },
        search.tried + 1 == search.attempts.len() ==> {
            let (phase, after) = after_search(tasks, id, search, Ok(Seq::empty()), now);
            &&& phase is Over
            &&& after[id].status == crate::task_store::TaskStatus::Failed
        },
{
    reveal_strlit("Ошибка: источник недоступен: ");
    reveal_strlit("Ошибка: ");
    reveal_strlit("источник недоступен: ");
    assert("Ошибка: "@ + ("источник недоступен: "@ + e) =~= "Ошибка: источник недоступен: "@ + e);
    let none = Seq::<ManifestEntry>::empty();
    assert(pipeline::ids_of(none) =~= Seq::<Seq<char>>::empty());
}

/// Every admitted picture is asked for before the video is rendered, of those that
/// arrived and by the plan for exactly these; where none arrived the task is over.
pub proof fn law_every_admitted_picture_is_asked_for(
    tasks: Map<u128, TaskView>,
    id: u128,
    fetching: FetchingView,
    outcome: Result<(String, u64, ImageFormat), FetchError>,
    target_dir: Seq<char>,
    now: Timestamp,
)
    requires
        0 <= fetching.next < fetching.admitted.len(),
    ensures
        ({
            let (phase, after) = after_download(tasks, id, fetching, outcome, target_dir, now);
            let f = fetching.after(outcome);
            &&& fetching.next + 1 < fetching.admitted.len() ==> phase == PhaseView::Fetching(f)
                && after == tasks
            &&& fetching.next + 1 == fetching.admitted.len() && f.usable.len() == 0 ==> phase is Over
            &&& fetching.next + 1 == fetching.admitted.len() && f.usable.len() > 0 ==> {
                &&& phase is Rendering
                &&& phase->Rendering_1 == f.downloaded
                &&& phase->Rendering_0.asset_ids.len() == f.usable.len()
                &&& forall|i: int|
                    0 <= i < f.usable.len() ==> #[trigger] phase->Rendering_0.asset_ids[i]
                        == f.usable[i].asset_id
                &&& phase->Rendering_0.credits_text == credits::credits_of(f.usable)
            }
        }),
{
}

/// The step that is next is the one that the task stands at: asking about the user's
/// words, searching for the words that are due, downloading the picture that is due, or
/// rendering what is there.
pub proof fn law_the_next_step_is_the_one_due<'a>(phase: PhaseView, action: VideoAction<'a>)
    requires
        called_for(phase, action),
    ensures
        phase matches PhaseView::Extracting(said) ==> (action matches VideoAction::Extract(t) && t@
            == said),
        phase matches PhaseView::Searching(s) ==> (action matches VideoAction::Search(words)
            && words@ == s.attempts[s.tried]),
        phase matches PhaseView::Fetching(f) ==> (action matches VideoAction::Fetch(entry) && *entry
            == f.manifest[f.admitted[f.next].asset_id]),
        phase matches PhaseView::Rendering(p, there) ==> (action matches VideoAction::Render {
            plan,
            files,
        } && plan@ == p && pipeline::files(files@) == there),
        phase is Over <==> action is Finished,
{
}

} // verus!
