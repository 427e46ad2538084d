//! The way of a media task from the user's words to a video.
//!
//! The words are made into a search, what is found goes through admission, what
//! passes is downloaded, what arrived is planned and rendered. The functions here
//! say what comes next and what is noted in the task; asking the model, searching,
//! downloading and rendering is done around them.

use crate::clock::Timestamp;
use crate::control_center_api;
use crate::formats;
use crate::media::credits;
use crate::media::credits::{PlanView, RenderPlan};
use crate::media::fetch::{DownloadedAsset, FetchError, ImageFormat};
use crate::media::gate;
use crate::media::gate::{AdmittedAsset, AssetView, Timeline};
use crate::media::provenance;
use crate::media::provenance::{Manifest, ManifestEntry};
use crate::media::query;
use crate::media::render::{RenderError, RenderOutcome};
use crate::model_backend;
use crate::model_backend::{GenerateResponse, Message, MessageView, ResponseView, Role};
use crate::task_store::{TaskStatus, TaskStore, TaskView};
use crate::text;
use vstd::prelude::*;

verus! {

broadcast use text::texts_push;

/// The licenses that are asked for. Admission decides all the same.
pub const REQUESTED_LICENSES: [&'static str; 3] = ["cc0", "pdm", "by"];

/// How many pictures are asked for in one search.
pub const SEARCH_PAGE_SIZE: u8 = 5;

/// Where the pictures of a task are kept.
pub open spec fn cache_dir(id: u128) -> Seq<char> {
    ".kaic/media-cache/"@ + formats::id_text(id)
}

/// Where the pictures of a task are kept.
pub fn media_cache_dir(id: u128) -> (r: String)
    ensures
        r@ == cache_dir(id),
{
    let mut path = String::from_str(".kaic/media-cache/");
    path.append(formats::write_id(id).as_str());
    path
}

/// Where the video of a task is kept.
pub fn media_render_dir(id: u128) -> (r: String)
    ensures
        r@ == ".kaic/renders/"@ + formats::id_text(id),
{
    let mut path = String::from_str(".kaic/renders/");
    path.append(formats::write_id(id).as_str());
    path
}

// The words to search for.

/// The first thing that the user said.
pub open spec fn first_said(messages: Seq<MessageView>) -> Option<Seq<char>>
    decreases messages.len(),
{
    if messages.len() == 0 {
        None
    } else if messages[0].role == Role::User {
        Some(messages[0].content)
    } else {
        first_said(messages.skip(1))
    }
}

/// What a media task is about: the first thing that the user said, without white
/// space around it; nothing where that is blank.
pub open spec fn subject(messages: Seq<MessageView>) -> Option<Seq<char>> {
    match first_said(messages) {
        Some(said) if text::trimmed(said).len() > 0 => Some(text::trimmed(said)),
        _ => None,
    }
}

/// What a media task is about.
pub fn media_query(messages: &Vec<Message>) -> (r: Option<String>)
    ensures
        text::opt_text(r) == subject(model_backend::messages(messages@)),
{
    let ghost all = model_backend::messages(messages@);
    let mut i: usize = 0;
    assert(all.skip(0) =~= all);
    while i < messages.len()
        invariant
            i <= messages@.len(),
            all == model_backend::messages(messages@),
            first_said(all) == first_said(all.skip(i as int)),
        decreases messages@.len() - i,
    {
        assert(all.skip(i as int)[0] == messages@[i as int]@);
        assert(all.skip(i as int).skip(1) =~= all.skip(i + 1));
        if messages[i].role == Role::User {
            let said = text::trim(messages[i].content.as_str());
            if said.as_str().is_empty() {
                return None;
            }
            return Some(said);
        }
        i = i + 1;
    }
    None
}

/// Begins a media task. Without words of the user it fails.
pub fn begin(store: &mut TaskStore, id: u128, messages: &Vec<Message>, now: Timestamp) -> (r: Option<
    String,
>)
    ensures
        text::opt_text(r) == subject(model_backend::messages(messages@)),
        final(store)@ == if r is Some {
            old(store)@
        } else {
            control_center_api::failed(
                old(store)@,
                id,
                "в задаче нет пользовательского текста для поиска материалов"@,
                now,
            )
        },
{
    let found = media_query(messages);
    if found.is_none() {
        control_center_api::fail_task(
            store,
            id,
            "в задаче нет пользовательского текста для поиска материалов",
            now,
        );
    }
    found
}

/// What the model was to say and said: the words to search for. Where it said
/// nothing of use, the user's own words are taken.
pub open spec fn term_for(raw_text: Seq<char>, term: Option<Seq<char>>) -> Seq<char> {
    match term {
        Some(t) => t,
        None => raw_text,
    }
}

/// The note on the words to search for.
pub open spec fn term_note(
    raw_text: Seq<char>,
    term: Option<Seq<char>>,
    elapsed_ms: u128,
) -> Seq<char> {
    match term {
        Some(t) => "поисковый термин: «"@ + t + "» (из «"@ + raw_text + "», "@ + text::decimal(
            elapsed_ms as nat,
        ) + " мс)"@,
        None => "модель не дала пригодный термин; ищу по тексту задачи «"@ + raw_text + "»"@,
    }
}

/// Takes the words to search for, where the model's answer holds any.
pub fn choose_term(
    store: &mut TaskStore,
    id: u128,
    raw_text: &str,
    term: Option<String>,
    elapsed_ms: u128,
    now: Timestamp,
) -> (r: String)
    ensures
        r@ == term_for(raw_text@, text::opt_text(term)),
        final(store)@ == control_center_api::noted(
            old(store)@,
            id,
            term_note(raw_text@, text::opt_text(term), elapsed_ms),
            now,
        ),
{
    match term {
        Some(t) => {
            let mut content = String::from_str("поисковый термин: «");
            content.append(t.as_str());
            content.append("» (из «");
            content.append(raw_text);
            content.append("», ");
            content.append(text::show_wide(elapsed_ms).as_str());
            content.append(" мс)");
            control_center_api::note(store, id, content, now);
            t
        },
        None => {
            let mut content = String::from_str(
                "модель не дала пригодный термин; ищу по тексту задачи «",
            );
            content.append(raw_text);
            content.append("»");
            control_center_api::note(store, id, content, now);
            raw_text.to_owned()
        },
    }
}

/// What the model was asked for the words to search for, and said.
pub open spec fn reply_view(reply: Result<GenerateResponse, String>) -> Result<
    ResponseView,
    Seq<char>,
> {
    match reply {
        Ok(response) => Ok(response@),
        Err(e) => Err(e@),
    }
}

/// The words to search for that come of the model's reply.
pub open spec fn extracted(raw_text: Seq<char>, reply: Result<ResponseView, Seq<char>>) -> Seq<
    char,
> {
    match reply {
        Ok(ResponseView::Text(t)) => term_for(raw_text, query::search_term(t)),
        _ => raw_text,
    }
}

/// The note on the model's reply.
pub open spec fn extraction_note(
    raw_text: Seq<char>,
    reply: Result<ResponseView, Seq<char>>,
    elapsed_ms: u128,
) -> Seq<char> {
    match reply {
        Ok(ResponseView::Text(t)) => term_note(raw_text, query::search_term(t), elapsed_ms),
        Ok(ResponseView::ToolCalls(_)) => {
            "модель запросила вызов инструмента там, где инструментов нет; ищу по тексту задачи"@
        },
        Err(e) => "извлечение термина не выполнено ("@ + e + "); ищу по тексту задачи"@,
    }
}

/// Takes the model's reply, or why there is none, and gives the words to search
/// for. Whatever goes wrong, the user's own words are left.
pub fn extract_search_term(
    store: &mut TaskStore,
    id: u128,
    raw_text: &str,
    reply: Result<GenerateResponse, String>,
    elapsed_ms: u128,
    now: Timestamp,
) -> (r: String)
    ensures
        r@ == extracted(raw_text@, reply_view(reply)),
        final(store)@ == control_center_api::noted(
            old(store)@,
            id,
            extraction_note(raw_text@, reply_view(reply), elapsed_ms),
            now,
        ),
{
    match reply {
        Ok(GenerateResponse::Text(t)) => {
            let term = query::sanitize(t.as_str());
            choose_term(store, id, raw_text, term, elapsed_ms, now)
        },
        Ok(GenerateResponse::ToolCalls(_)) => {
            control_center_api::note(
                store,
                id,
                String::from_str(
                    "модель запросила вызов инструмента там, где инструментов нет; ищу по тексту задачи",
                ),
                now,
            );
            raw_text.to_owned()
        },
        Err(e) => {
            let mut content = String::from_str("извлечение термина не выполнено (");
            content.append(e.as_str());
            content.append("); ищу по тексту задачи");
            control_center_api::note(store, id, content, now);
            raw_text.to_owned()
        },
    }
}

// The search.

/// The searches to try, one after the other: first the words, then fewer and
/// fewer of them, and in the end what the user said.
pub open spec fn attempts_for(query: Seq<char>, raw_text: Seq<char>) -> Seq<Seq<char>> {
    let narrowed = query::narrowings(text::words(query));
    if narrowed.contains(raw_text) {
        narrowed
    } else {
        narrowed.push(raw_text)
    }
}

/// The note that a search begins.
pub open spec fn search_note(query: Seq<char>) -> Seq<char> {
    "медиа-пайплайн: ищу материалы в Openverse по запросу «"@ + query + "»"@
}

/// The note that nothing was found.
pub open spec fn nothing_note(words: Seq<char>) -> Seq<char> {
    "по запросу «"@ + words + "» ничего не найдено, расширяю поиск"@
}

/// A search under way.
pub struct Search {
    query: String,
    attempts: Vec<String>,
    tried: usize,
}

/// A search by its characters.
#[verifier::ext_equal]
pub struct SearchView {
    pub query: Seq<char>,
    /// The searches to try.
    pub attempts: Seq<Seq<char>>,
    /// How many of them were tried without finding anything.
    pub tried: int,
}

/// What a search came to.
pub enum SearchStep {
    /// Try the next one.
    Again,
    /// The source cannot be reached; the task failed.
    Failed,
    /// These pictures were found by these words. There may be none.
    Candidates { entries: Vec<ManifestEntry>, used_query: String },
}

impl View for Search {
    type V = SearchView;

    closed spec fn view(&self) -> SearchView {
        SearchView {
            query: self.query@,
            attempts: text::texts(self.attempts@),
            tried: self.tried as int,
        }
    }
}

impl SearchView {
    /// Nothing was found by the words tried last.
    pub open spec fn empty_handed(self) -> SearchView {
        SearchView { tried: self.tried + 1, ..self }
    }
}

impl Search {
    #[verifier::type_invariant]
    spec fn under_way(self) -> bool {
        self.tried <= self.attempts@.len()
    }

    /// Begins to search.
    pub fn begin(
        store: &mut TaskStore,
        id: u128,
        query: String,
        raw_text: &str,
        now: Timestamp,
    ) -> (r: Search)
        ensures
            r@ == (SearchView {
                query: query@,
                attempts: attempts_for(query@, raw_text@),
                tried: 0,
            }),
            final(store)@ == control_center_api::noted(
                old(store)@,
                id,
                search_note(query@),
                now,
            ),
    {
        let mut content = String::from_str(
            "медиа-пайплайн: ищу материалы в Openverse по запросу «",
        );
        content.append(query.as_str());
        content.append("»");
        control_center_api::note(store, id, content, now);
        let mut attempts = query::narrowing_variants(query.as_str());
        if !holds(&attempts, raw_text) {
            attempts.push(raw_text.to_owned());
        }
        Search { query, attempts, tried: 0 }
    }

    /// The words to search for next.
    pub fn next(&self) -> (r: Option<&str>)
        ensures
            r is Some <==> self@.tried < self@.attempts.len(),
            r matches Some(t) ==> t@ == self@.attempts[self@.tried],
    {
        if self.tried < self.attempts.len() {
            Some(self.attempts[self.tried].as_str())
        } else {
            None
        }
    }

    /// Takes what was found by the words to search for next. Where nothing was
    /// found it is noted and the next words are due; after the last ones the
    /// search ends without pictures. Where the source cannot be reached the task
    /// fails.
    pub fn found(
        &mut self,
        store: &mut TaskStore,
        id: u128,
        result: Result<Vec<ManifestEntry>, String>,
        now: Timestamp,
    ) -> (r: SearchStep)
        requires
            old(self)@.tried < old(self)@.attempts.len(),
        ensures
            match result {
                Err(e) => r is Failed && final(self)@ == old(self)@ && final(store)@
                    == control_center_api::failed(
                    old(store)@,
                    id,
                    "источник недоступен: "@ + e@,
                    now,
                ),
                Ok(found) => if found@.len() > 0 {
                    &&& r matches SearchStep::Candidates { entries, used_query } && entries
                        == found && used_query@ == old(self)@.attempts[old(self)@.tried]
                    &&& final(self)@ == old(self)@
                    &&& final(store)@ == old(store)@
                } else {
                    &&& final(self)@ == old(self)@.empty_handed()
                    &&& final(store)@ == control_center_api::noted(
                        old(store)@,
                        id,
                        nothing_note(old(self)@.attempts[old(self)@.tried]),
                        now,
                    )
                    &&& if final(self)@.tried < final(self)@.attempts.len() {
                        r is Again
                    } else {
                        r matches SearchStep::Candidates { entries, used_query } && entries@.len()
                            == 0 && used_query@ == old(self)@.query
                    }
                },
            },
    {
        proof {
            use_type_invariant(&*self);
        }
        match result {
            Err(e) => {
                let mut reason = String::from_str("источник недоступен: ");
                reason.append(e.as_str());
                control_center_api::fail_task(store, id, reason.as_str(), now);
                SearchStep::Failed
            },
            Ok(entries) => {
                let attempt = self.attempts[self.tried].clone();
                if entries.len() > 0 {
                    return SearchStep::Candidates { entries, used_query: attempt };
                }
                let mut content = String::from_str("по запросу «");
                content.append(attempt.as_str());
                content.append("» ничего не найдено, расширяю поиск");
                control_center_api::note(store, id, content, now);
                assert(self.tried < self.attempts.len());
                self.tried = self.tried + 1;
                if self.tried < self.attempts.len() {
                    SearchStep::Again
                } else {
                    SearchStep::Candidates { entries, used_query: self.query.clone() }
                }
            },
        }
    }
}

/// Whether a text is among others.
fn holds(list: &Vec<String>, wanted: &str) -> (r: bool)
    ensures
        r == text::texts(list@).contains(wanted@),
{
    let ghost all = text::texts(list@);
    let mut i: usize = 0;
    while i < list.len()
        invariant
            i <= list@.len(),
            all == text::texts(list@),
            forall|k: int| 0 <= k < i ==> #[trigger] all[k] != wanted@,
        decreases list@.len() - i,
    {
        assert(all[i as int] == list@[i as int]@);
        if text::same(list[i].as_str(), wanted) {
            assert(all.contains(all[i as int]));
            return true;
        }
        i = i + 1;
    }
    false
}

/// What the user said is searched for in the end, whatever the model made of it:
/// it is among the searches to try, and there is at least one.
pub proof fn law_own_words_are_tried(query: Seq<char>, raw_text: Seq<char>)
    ensures
        attempts_for(query, raw_text).contains(raw_text),
        attempts_for(query, raw_text).len() > 0,
{
    let narrowed = query::narrowings(text::words(query));
    if !narrowed.contains(raw_text) {
        assert(narrowed.push(raw_text)[narrowed.len() as int] == raw_text);
    }
}

// Admission.

/// The manifest of what was found.
pub open spec fn manifest_of(entries: Seq<ManifestEntry>) -> Map<Seq<char>, ManifestEntry>
    decreases entries.len(),
{
    if entries.len() == 0 {
        Map::empty()
    } else {
        manifest_of(entries.drop_last()).insert(entries.last().asset_id@, entries.last())
    }
}

/// The identifiers of what was found.
pub open spec fn ids_of(entries: Seq<ManifestEntry>) -> Seq<Seq<char>> {
    entries.map_values(|e: ManifestEntry| e.asset_id@)
}

/// The assets that pass admission, in their order.
pub open spec fn passing(manifest: Map<Seq<char>, ManifestEntry>, ids: Seq<Seq<char>>) -> Seq<
    AssetView,
>
    decreases ids.len(),
{
    if ids.len() == 0 {
        Seq::empty()
    } else {
        match gate::admission(manifest, ids.last()) {
            Ok(a) => passing(manifest, ids.drop_last()).push(a),
            Err(_) => passing(manifest, ids.drop_last()),
        }
    }
}

/// The reasons why the others do not, in their order.
pub open spec fn refusals(manifest: Map<Seq<char>, ManifestEntry>, ids: Seq<Seq<char>>) -> Seq<
    Seq<char>,
>
    decreases ids.len(),
{
    if ids.len() == 0 {
        Seq::empty()
    } else {
        match gate::admission(manifest, ids.last()) {
            Ok(_) => refusals(manifest, ids.drop_last()),
            Err(e) => refusals(manifest, ids.drop_last()).push(e.words()),
        }
    }
}

/// Admission decides on every asset, one way or the other, and what passes is
/// sound and in the manifest.
pub proof fn law_gate_decides_on_every_asset(
    manifest: Map<Seq<char>, ManifestEntry>,
    ids: Seq<Seq<char>>,
)
    ensures
        passing(manifest, ids).len() + refusals(manifest, ids).len() == ids.len(),
        forall|i: int|
            0 <= i < passing(manifest, ids).len() ==> (#[trigger] passing(manifest, ids)[i]).sound()
                && manifest.dom().contains(passing(manifest, ids)[i].asset_id),
    decreases ids.len(),
{
    if ids.len() > 0 {
        law_gate_decides_on_every_asset(manifest, ids.drop_last());
        gate::law_admitted_assets_are_sound(manifest, ids.last());
    }
}

/// Why nothing that was found can be used.
pub open spec fn nothing_usable(entries: Seq<ManifestEntry>) -> Seq<char> {
    if entries.len() == 0 {
        "источник не вернул ни одного ассета"@
    } else {
        "гейт не допустил ни одного ассета из "@ + text::decimal(entries.len()) + ": "@
            + text::joined(refusals(manifest_of(entries), ids_of(entries)), "; "@)
    }
}

/// Leads everything that was found through admission. It is an error if nothing
/// passes.
pub fn admit_all(entries: Vec<ManifestEntry>) -> (r: Result<
    (Manifest, Vec<AdmittedAsset>, Vec<String>),
    String,
>)
    ensures
        r is Ok <==> passing(manifest_of(entries@), ids_of(entries@)).len() > 0,
        r matches Ok((manifest, admitted, rejections)) ==> {
            &&& manifest@ == manifest_of(entries@)
            &&& gate::assets(admitted@) == passing(manifest_of(entries@), ids_of(entries@))
            &&& text::texts(rejections@) == refusals(manifest_of(entries@), ids_of(entries@))
        },
        r matches Err(reason) ==> reason@ == nothing_usable(entries@),
{
    broadcast use gate::assets_push;

    if entries.len() == 0 {
        return Err(String::from_str("источник не вернул ни одного ассета"));
    }
    let ghost all = entries@;
    let ghost ids = ids_of(all);
    let mut manifest = Manifest::new();
    let mut i: usize = 0;
    assert(all.take(0) =~= Seq::<ManifestEntry>::empty());
    while i < entries.len()
        invariant
            i <= entries@.len(),
            all == entries@,
            manifest@ == manifest_of(all.take(i as int)),
        decreases entries@.len() - i,
    {
        manifest.insert(provenance::copy_entry(&entries[i]));
        assert(all.take(i + 1).drop_last() =~= all.take(i as int));
        i = i + 1;
    }
    assert(all.take(all.len() as int) =~= all);
    let ghost m = manifest@;
    let mut admitted: Vec<AdmittedAsset> = Vec::new();
    let mut rejections: Vec<String> = Vec::new();
    let mut k: usize = 0;
    assert(ids.take(0) =~= Seq::<Seq<char>>::empty());
    assert(gate::assets(admitted@) =~= Seq::<AssetView>::empty());
    assert(text::texts(rejections@) =~= Seq::<Seq<char>>::empty());
    while k < entries.len()
        invariant
            k <= entries@.len(),
            all == entries@,
            ids == ids_of(all),
            m == manifest@,
            gate::assets(admitted@) == passing(m, ids.take(k as int)),
            text::texts(rejections@) == refusals(m, ids.take(k as int)),
        decreases entries@.len() - k,
    {
        assert(ids[k as int] == entries@[k as int].asset_id@);
        assert(ids.take(k + 1).drop_last() =~= ids.take(k as int));
        match gate::admit_asset(&manifest, entries[k].asset_id.as_str()) {
            Ok(asset) => admitted.push(asset),
            Err(rejection) => rejections.push(rejection.message()),
        }
        k = k + 1;
    }
    assert(ids.take(ids.len() as int) =~= ids);
    if admitted.len() == 0 {
        assert(gate::assets(admitted@).len() == 0);
        let mut reason = String::from_str("гейт не допустил ни одного ассета из ");
        reason.append(text::show(entries.len() as u64).as_str());
        reason.append(": ");
        reason.append(text::join(&rejections, "; ").as_str());
        return Err(reason);
    }
    assert(gate::assets(admitted@).len() > 0);
    Ok((manifest, admitted, rejections))
}

/// Makes the plan for assets that are there. There is none exactly if there are no
/// assets.
pub fn plan_from_admitted(admitted: Vec<AdmittedAsset>) -> (r: Result<RenderPlan, String>)
    ensures
        r is Ok <==> admitted@.len() > 0,
        r matches Ok(plan) ==> plan@ == credits::plan_of(gate::assets(admitted@)),
        r matches Err(reason) ==> reason@ == "план не собран: таймлайн пуст"@,
{
    let ghost all = gate::assets(admitted@);
    let mut timeline = Timeline::new();
    let mut i: usize = 0;
    assert(timeline@ =~= all.take(0));
    while i < admitted.len()
        invariant
            i <= admitted@.len(),
            all == gate::assets(admitted@),
            timeline@ == all.take(i as int),
        decreases admitted@.len() - i,
    {
        timeline.push(admitted[i].clone());
        assert(all[i as int] == admitted@[i as int]@);
        assert(all.take(i + 1) =~= all.take(i as int).push(all[i as int]));
        i = i + 1;
    }
    assert(all.take(all.len() as int) =~= all);
    match credits::plan_render(&timeline) {
        Ok(plan) => Ok(plan),
        Err(_) => Err(String::from_str("план не собран: таймлайн пуст")),
    }
}

/// Leads everything that was found through admission and makes the plan for what
/// passes; gives the reasons against the rest too.
pub fn assemble_render_plan(entries: Vec<ManifestEntry>) -> (r: Result<
    (RenderPlan, Vec<String>),
    String,
>)
    ensures
        r is Ok <==> passing(manifest_of(entries@), ids_of(entries@)).len() > 0,
        r matches Ok((plan, rejections)) ==> {
            &&& plan@ == credits::plan_of(passing(manifest_of(entries@), ids_of(entries@)))
            &&& text::texts(rejections@) == refusals(manifest_of(entries@), ids_of(entries@))
        },
        r matches Err(reason) ==> reason@ == nothing_usable(entries@),
{
    match admit_all(entries) {
        Ok((_, admitted, rejections)) => {
            assert(gate::assets(admitted@).len() == admitted@.len());
            match plan_from_admitted(admitted) {
                Ok(plan) => Ok((plan, rejections)),
                Err(reason) => Err(reason),
            }
        },
        Err(reason) => Err(reason),
    }
}

// The downloads.

/// A picture on disk, by its characters.
#[verifier::ext_equal]
pub struct FileView {
    pub asset_id: Seq<char>,
    pub path: Seq<char>,
    pub bytes: u64,
    pub format: ImageFormat,
}

impl View for DownloadedAsset {
    type V = FileView;

    open spec fn view(&self) -> FileView {
        FileView {
            asset_id: self.asset_id@,
            path: self.path@,
            bytes: self.bytes,
            format: self.format,
        }
    }
}

/// The views of pictures on disk.
pub open spec fn files(v: Seq<DownloadedAsset>) -> Seq<FileView> {
    v.map_values(|f: DownloadedAsset| f@)
}

/// Appending a picture appends its view.
pub broadcast proof fn files_push(v: Seq<DownloadedAsset>, f: DownloadedAsset)
    ensures
        #[trigger] files(v.push(f)) == files(v).push(f@),
{
    assert(files(v.push(f)) =~= files(v).push(f@));
}

/// Whether pictures on disk are those of assets, one for one.
pub open spec fn files_of(files: Seq<FileView>, assets: Seq<AssetView>) -> bool {
    &&& files.len() == assets.len()
    &&& forall|i: int|
        0 <= i < files.len() ==> (#[trigger] files[i]).asset_id == (#[trigger] assets[i]).asset_id
}

/// The downloads of a task: the admitted assets are fetched one after the other.
pub struct Fetching {
    manifest: Manifest,
    admitted: Vec<AdmittedAsset>,
    next: usize,
    downloaded: Vec<DownloadedAsset>,
    usable: Vec<AdmittedAsset>,
    failures: Vec<String>,
}

/// The downloads by their characters.
#[verifier::ext_equal]
pub struct FetchingView {
    pub manifest: Map<Seq<char>, ManifestEntry>,
    /// The assets to be fetched.
    pub admitted: Seq<AssetView>,
    /// The next one of them.
    pub next: int,
    /// What arrived.
    pub downloaded: Seq<FileView>,
    /// The assets that arrived.
    pub usable: Seq<AssetView>,
    /// Why the others did not.
    pub failures: Seq<Seq<char>>,
}

impl View for Fetching {
    type V = FetchingView;

    closed spec fn view(&self) -> FetchingView {
        FetchingView {
            manifest: self.manifest@,
            admitted: gate::assets(self.admitted@),
            next: self.next as int,
            downloaded: files(self.downloaded@),
            usable: gate::assets(self.usable@),
            failures: text::texts(self.failures@),
        }
    }
}

impl FetchingView {
    /// The next asset arrived, or did not.
    pub open spec fn after(self, outcome: Result<(String, u64, ImageFormat), FetchError>)
        -> FetchingView {
        match outcome {
            Ok((path, bytes, format)) => FetchingView {
                next: self.next + 1,
                downloaded: self.downloaded.push(
                    FileView {
                        asset_id: self.admitted[self.next].asset_id,
                        path: path@,
                        bytes,
                        format,
                    },
                ),
                usable: self.usable.push(self.admitted[self.next]),
                ..self
            },
            Err(e) => FetchingView {
                next: self.next + 1,
                failures: self.failures.push(e.words()),
                ..self
            },
        }
    }
}

/// The note on how many pictures were found.
pub open spec fn candidates_note(count: nat, used_query: Seq<char>) -> Seq<char> {
    "источник вернул "@ + text::decimal(count) + " кандидатов по запросу «"@ + used_query
        + "», проверяю гейтом"@
}

/// What is noted in a task when what was found goes through admission. The task
/// fails if nothing passes.
pub open spec fn screened(
    tasks: Map<u128, TaskView>,
    id: u128,
    entries: Seq<ManifestEntry>,
    used_query: Seq<char>,
    now: Timestamp,
) -> Map<u128, TaskView> {
    let counted = control_center_api::noted(
        tasks,
        id,
        candidates_note(entries.len(), used_query),
        now,
    );
    let against = refusals(manifest_of(entries), ids_of(entries));
    if passing(manifest_of(entries), ids_of(entries)).len() == 0 {
        control_center_api::failed(counted, id, nothing_usable(entries), now)
    } else if against.len() > 0 {
        control_center_api::noted(
            counted,
            id,
            "отклонено гейтом: "@ + text::joined(against, "; "@),
            now,
        )
    } else {
        counted
    }
}

/// The note on where the pictures are.
pub open spec fn arrived_note(f: FetchingView, target_dir: Seq<char>) -> Seq<char> {
    "загружено и верифицировано "@ + text::decimal(f.downloaded.len()) + " из "@ + text::decimal(
        f.downloaded.len() + f.failures.len(),
    ) + " допущенных, каталог "@ + target_dir
}

/// What is noted in a task after the downloads. The task fails if nothing arrived.
pub open spec fn fetched_all(
    tasks: Map<u128, TaskView>,
    id: u128,
    f: FetchingView,
    target_dir: Seq<char>,
    now: Timestamp,
) -> Map<u128, TaskView> {
    let told = if f.failures.len() > 0 {
        control_center_api::noted(
            tasks,
            id,
            "не загружено: "@ + text::joined(f.failures, "; "@),
            now,
        )
    } else {
        tasks
    };
    if f.usable.len() == 0 {
        control_center_api::failed(
            told,
            id,
            "ни один допущенный ассет не удалось загрузить и верифицировать"@,
            now,
        )
    } else {
        control_center_api::noted(told, id, arrived_note(f, target_dir), now)
    }
}

impl Fetching {
    #[verifier::type_invariant]
    spec fn in_step(self) -> bool {
        &&& self.next <= self.admitted@.len()
        &&& self.next == self.usable@.len() + self.failures@.len()
        &&& files_of(files(self.downloaded@), gate::assets(self.usable@))
        &&& forall|i: int|
            0 <= i < self.admitted@.len() ==> self.manifest@.dom().contains(
                (#[trigger] gate::assets(self.admitted@)[i]).asset_id,
            )
    }

    /// Leads what was found through admission. What passes is to be fetched; if
    /// nothing does, the task fails.
    pub fn screen(
        store: &mut TaskStore,
        id: u128,
        entries: Vec<ManifestEntry>,
        used_query: &str,
        now: Timestamp,
    ) -> (r: Option<Fetching>)
        ensures
            final(store)@ == screened(old(store)@, id, entries@, used_query@, now),
            r is Some <==> passing(manifest_of(entries@), ids_of(entries@)).len() > 0,
            r matches Some(f) ==> f@ == (FetchingView {
                manifest: manifest_of(entries@),
                admitted: passing(manifest_of(entries@), ids_of(entries@)),
                next: 0,
                downloaded: Seq::empty(),
                usable: Seq::empty(),
                failures: Seq::empty(),
            }),
    {
        let ghost found = entries@;
        let mut content = String::from_str("источник вернул ");
        content.append(text::show(entries.len() as u64).as_str());
        content.append(" кандидатов по запросу «");
        content.append(used_query);
        content.append("», проверяю гейтом");
        control_center_api::note(store, id, content, now);
        match admit_all(entries) {
            Err(reason) => {
                control_center_api::fail_task(store, id, reason.as_str(), now);
                None
            },
            Ok((manifest, admitted, rejections)) => {
                assert(text::texts(rejections@).len() == rejections@.len());
                if rejections.len() > 0 {
                    let mut content = String::from_str("отклонено гейтом: ");
                    content.append(text::join(&rejections, "; ").as_str());
                    control_center_api::note(store, id, content, now);
                }
                proof {
                    law_gate_decides_on_every_asset(manifest_of(found), ids_of(found));
                }
                let f = Fetching {
                    manifest,
                    admitted,
                    next: 0,
                    downloaded: Vec::new(),
                    usable: Vec::new(),
                    failures: Vec::new(),
                };
                assert(f@.downloaded =~= Seq::<FileView>::empty());
                assert(f@.usable =~= Seq::<AssetView>::empty());
                assert(f@.failures =~= Seq::<Seq<char>>::empty());
                Some(f)
            },
        }
    }

    /// What the manifest says of the next asset to be fetched.
    pub fn next(&self) -> (r: Option<&ManifestEntry>)
        ensures
            r is Some <==> self@.next < self@.admitted.len(),
            r matches Some(entry) ==> *entry
                == self@.manifest[self@.admitted[self@.next].asset_id],
    {
        proof {
            use_type_invariant(self);
        }
        assert(gate::assets(self.admitted@).len() == self.admitted@.len());
        if self.next < self.admitted.len() {
            assert(gate::assets(self.admitted@)[self.next as int] == self.admitted@[self.next
                as int]@);
            self.manifest.get(self.admitted[self.next].asset_id())
        } else {
            None
        }
    }

    /// Takes what came of the next asset: where its file lies, how large it is and
    /// what format it has, or why it could not be had. One that could not be had
    /// does not stop the others.
    pub fn fetched(&mut self, outcome: Result<(String, u64, ImageFormat), FetchError>)
        requires
            old(self)@.next < old(self)@.admitted.len(),
        ensures
            final(self)@ == old(self)@.after(outcome),
    {
        broadcast use gate::assets_push, files_push;

        proof {
            use_type_invariant(&*self);
        }
        let mut whole = Fetching {
            manifest: Manifest::new(),
            admitted: Vec::new(),
            next: 0,
            downloaded: Vec::new(),
            usable: Vec::new(),
            failures: Vec::new(),
        };
        core::mem::swap(&mut whole, self);
        let Fetching { manifest, admitted, next, mut downloaded, mut usable, mut failures } = whole;
        assert(gate::assets(admitted@)[next as int] == admitted@[next as int]@);
        match outcome {
            Ok((path, bytes, format)) => {
                let asset = admitted[next].clone();
                downloaded.push(
                    DownloadedAsset { asset_id: asset.asset_id().to_owned(), path, bytes, format },
                );
                usable.push(asset);
            },
            Err(e) => {
                failures.push(e.message());
            },
        }
        assert(next < admitted.len());
        *self = Fetching { manifest, admitted, next: next + 1, downloaded, usable, failures };
    }

    /// Ends the downloads: what could not be had is noted, and what arrived is
    /// planned. The plan is for exactly the pictures on disk. The task fails if
    /// nothing arrived.
    pub fn conclude(self, store: &mut TaskStore, id: u128, target_dir: &str, now: Timestamp) -> (r:
        Option<(RenderPlan, Vec<DownloadedAsset>)>)
        ensures
            final(store)@ == fetched_all(old(store)@, id, self@, target_dir@, now),
            r is Some <==> self@.usable.len() > 0,
            r matches Some((plan, files_there)) ==> {
                &&& plan@ == credits::plan_of(self@.usable)
                &&& files(files_there@) == self@.downloaded
                &&& plan@.asset_ids == self@.downloaded.map_values(|f: FileView| f.asset_id)
            },
    {
        proof {
            use_type_invariant(&self);
        }
        let ghost f = self@;
        let Fetching { manifest, admitted, next, downloaded, usable, failures } = self;
        assert(text::texts(failures@).len() == failures@.len());
        assert(gate::assets(usable@).len() == usable@.len());
        assert(files(downloaded@).len() == downloaded@.len());
        if failures.len() > 0 {
            let mut content = String::from_str("не загружено: ");
            content.append(text::join(&failures, "; ").as_str());
            control_center_api::note(store, id, content, now);
        }
        if usable.len() == 0 {
            control_center_api::fail_task(
                store,
                id,
                "ни один допущенный ассет не удалось загрузить и верифицировать",
                now,
            );
            return None;
        }
        let mut content = String::from_str("загружено и верифицировано ");
        content.append(text::show(downloaded.len() as u64).as_str());
        content.append(" из ");
        content.append(text::show(next as u64).as_str());
        content.append(" допущенных, каталог ");
        content.append(target_dir);
        control_center_api::note(store, id, content, now);
        match plan_from_admitted(usable) {
            Ok(plan) => {
                assert(plan@.asset_ids =~= f.downloaded.map_values(|v: FileView| v.asset_id));
                Some((plan, downloaded))
            },
            Err(_) => None,
        }
    }
}

// The result.

/// The line on a picture.
pub open spec fn file_line(f: FileView) -> Seq<char> {
    "  "@ + f.asset_id + " → "@ + f.path + " ("@ + text::decimal(f.bytes as nat) + " байт, "@
        + f.format.ending() + ")"@
}

/// The report on a video.
pub open spec fn summary_of(plan: PlanView, files: Seq<FileView>, rendered: RenderOutcome) -> Seq<
    char,
> {
    "Видео готово.\nАссетов на таймлайне: "@ + text::decimal(plan.asset_ids.len())
        + "\n\nФайлы (скачаны и верифицированы):\n"@ + text::joined(
        files.map_values(|f: FileView| file_line(f)),
        "\n"@,
    ) + "\n\nТитры:\n"@ + (if plan.credits_text.len() == 0 {
        "(не требуются: только public domain)"@
    } else {
        plan.credits_text
    }) + "\n\nРезультат: "@ + rendered.path@ + " ("@ + text::decimal(rendered.bytes as nat)
        + " байт, рендер "@ + text::decimal(rendered.elapsed_ms as nat) + " мс)"@
}

/// Writes the report on a video.
pub fn summarize(
    plan: &RenderPlan,
    downloaded: &Vec<DownloadedAsset>,
    rendered: &RenderOutcome,
) -> (r: String)
    ensures
        r@ == summary_of(plan@, files(downloaded@), *rendered),
{
    let ghost all = files(downloaded@).map_values(|f: FileView| file_line(f));
    let mut lines: Vec<String> = Vec::new();
    let mut i: usize = 0;
    assert(text::texts(lines@) =~= all.take(0));
    while i < downloaded.len()
        invariant
            i <= downloaded@.len(),
            all == files(downloaded@).map_values(|f: FileView| file_line(f)),
            text::texts(lines@) == all.take(i as int),
        decreases downloaded@.len() - i,
    {
        let f = &downloaded[i];
        let mut line = String::from_str("  ");
        line.append(f.asset_id.as_str());
        line.append(" → ");
        line.append(f.path.as_str());
        line.append(" (");
        line.append(text::show(f.bytes).as_str());
        line.append(" байт, ");
        line.append(f.format.extension());
        line.append(")");
        assert(all[i as int] == file_line(f@));
        assert(all.take(i + 1) =~= all.take(i as int).push(all[i as int]));
        lines.push(line);
        i = i + 1;
    }
    assert(all.take(all.len() as int) =~= all);
    let ids = plan.asset_ids();
    assert(text::texts(ids@).len() == ids@.len());
    let mut s = String::from_str("Видео готово.\nАссетов на таймлайне: ");
    s.append(text::show(ids.len() as u64).as_str());
    s.append("\n\nФайлы (скачаны и верифицированы):\n");
    s.append(text::join(&lines, "\n").as_str());
    s.append("\n\nТитры:\n");
    if plan.credits_text().is_empty() {
        s.append("(не требуются: только public domain)");
    } else {
        s.append(plan.credits_text());
    }
    s.append("\n\nРезультат: ");
    s.append(rendered.path.as_str());
    s.append(" (");
    s.append(text::show(rendered.bytes).as_str());
    s.append(" байт, рендер ");
    s.append(text::show_wide(rendered.elapsed_ms).as_str());
    s.append(" мс)");
    s
}

/// What becomes of a task when its video is rendered, or is not.
pub open spec fn delivered(
    tasks: Map<u128, TaskView>,
    id: u128,
    plan: PlanView,
    files: Seq<FileView>,
    rendered: Result<RenderOutcome, RenderError>,
    now: Timestamp,
) -> Map<u128, TaskView> {
    match rendered {
        Err(e) => control_center_api::failed(tasks, id, "рендер не удался: "@ + e.words(), now),
        Ok(outcome) => control_center_api::recorded(
            control_center_api::with_entry(
                tasks,
                id,
                control_center_api::plain_entry("artifact"@, outcome.path@, now),
                now,
            ),
            id,
            TaskStatus::Done,
            summary_of(plan, files, outcome),
            now,
        ),
    }
}

/// Enters the video into its task: where the file is, in an entry of its own, and
/// a report; or why there is no video.
pub fn deliver(
    store: &mut TaskStore,
    id: u128,
    plan: &RenderPlan,
    downloaded: &Vec<DownloadedAsset>,
    rendered: Result<RenderOutcome, RenderError>,
    now: Timestamp,
)
    ensures
        final(store)@ == delivered(old(store)@, id, plan@, files(downloaded@), rendered, now),
{
    match rendered {
        Err(e) => {
            let mut reason = String::from_str("рендер не удался: ");
            reason.append(e.message().as_str());
            control_center_api::fail_task(store, id, reason.as_str(), now);
        },
        Ok(outcome) => {
            let summary = summarize(plan, downloaded, &outcome);
            control_center_api::add_entry(
                store,
                id,
                control_center_api::ARTIFACT_ROLE,
                outcome.path,
                None,
                now,
            );
            control_center_api::record_outcome(store, id, TaskStatus::Done, summary, now);
        },
    }
}

/// A media task is about the first thing that the user said, whatever was said before
/// and after it, without white space around it; where that is blank, or the user said
/// nothing, it is about nothing.
pub proof fn law_the_users_first_words_count(messages: Seq<MessageView>, k: int)
    ensures
        0 <= k < messages.len() && messages[k].role == Role::User && (forall|i: int|
            0 <= i < k ==> (#[trigger] messages[i]).role != Role::User) ==> subject(messages)
            == if text::is_blank(messages[k].content) {
            None
        } else {
            Some(text::trimmed(messages[k].content))
        },
        (forall|i: int| 0 <= i < messages.len() ==> (#[trigger] messages[i]).role != Role::User)
            ==> subject(messages) is None,
{
    lemma_first_said(messages, k);
    if 0 <= k < messages.len() {
        text::lemma_blank(messages[k].content);
    }
}

proof fn lemma_first_said(messages: Seq<MessageView>, k: int)
    ensures
        0 <= k < messages.len() && messages[k].role == Role::User && (forall|i: int|
            0 <= i < k ==> (#[trigger] messages[i]).role != Role::User) ==> first_said(messages)
            == Some(messages[k].content),
        (forall|i: int| 0 <= i < messages.len() ==> (#[trigger] messages[i]).role != Role::User)
            ==> first_said(messages) is None,
    decreases messages.len(),
{
    if messages.len() > 0 {
        let rest = messages.skip(1);
        lemma_first_said(rest, k - 1);
        if 0 < k < messages.len() && messages[k].role == Role::User && forall|i: int|
            0 <= i < k ==> (#[trigger] messages[i]).role != Role::User {
            assert(messages[0].role != Role::User);
            assert(rest[k - 1] == messages[k]);
            assert forall|i: int| 0 <= i < k - 1 implies (#[trigger] rest[i]).role
                != Role::User by {
                assert(rest[i] == messages[i + 1]);
            }
        }
        if forall|i: int| 0 <= i < messages.len() ==> (#[trigger] messages[i]).role != Role::User {
            assert(messages[0].role != Role::User);
            assert forall|i: int| 0 <= i < rest.len() implies (#[trigger] rest[i]).role
                != Role::User by {
                assert(rest[i] == messages[i + 1]);
            }
        }
    }
}

/// What is searched for is what the model's text gives, where it gives anything, and
/// else the user's own words: also where the model asked for a tool or could not be
/// asked.
pub proof fn law_the_users_words_are_left(
    raw_text: Seq<char>,
    t: Seq<char>,
    asked: Seq<model_backend::ToolCallView>,
    e: Seq<char>,
)
    ensures
        query::search_term(t) matches Some(term) ==> extracted(
            raw_text,
            Ok(ResponseView::Text(t)),
        ) == term,
        query::search_term(t) is None ==> extracted(raw_text, Ok(ResponseView::Text(t))) == raw_text,
        extracted(raw_text, Ok(ResponseView::ToolCalls(asked))) == raw_text,
        extracted(raw_text, Err(e)) == raw_text,
{
}

/// The searches go from the whole of the words to the first of them alone, each with one
/// word fewer than the one before, and end with what the user said, unless that was
/// among them.
pub proof fn law_searches_end_with_the_users_words(query: Seq<char>, raw_text: Seq<char>, i: int)
    ensures
        ({
            let a = attempts_for(query, raw_text);
            let w = text::words(query);
            &&& w.len() <= a.len() <= w.len() + 1
            &&& 0 <= i < w.len() ==> a[i] == text::joined(w.take(w.len() - i), " "@)
            &&& a.len() == w.len() + 1 ==> a.last() == raw_text && forall|k: int|
                0 <= k < w.len() ==> #[trigger] a[k] != raw_text
            &&& a.len() == w.len() ==> exists|k: int| 0 <= k < w.len() && #[trigger] a[k] == raw_text
        }),
{
    let w = text::words(query);
    let n = query::narrowings(w);
    let a = attempts_for(query, raw_text);
    if n.contains(raw_text) {
        let k = n.index_of(raw_text);
        assert(a[k] == raw_text);
    } else {
        assert forall|k: int| 0 <= k < w.len() implies #[trigger] a[k] != raw_text by {
            assert(n[k] == a[k]);
            assert(n.contains(n[k]));
        }
    }
}

/// The manifest holds what was found last under each identifier, and nothing else.
pub proof fn law_the_manifest_holds_what_was_found(entries: Seq<ManifestEntry>, k: int, id: Seq<char>)
    ensures
        0 <= k < entries.len() && (forall|i: int|
            k < i < entries.len() ==> (#[trigger] entries[i]).asset_id@ != entries[k].asset_id@)
            ==> manifest_of(entries).dom().contains(entries[k].asset_id@) && manifest_of(
            entries,
        )[entries[k].asset_id@] == entries[k],
        (forall|i: int| 0 <= i < entries.len() ==> (#[trigger] entries[i]).asset_id@ != id)
            ==> !manifest_of(entries).dom().contains(id),
    decreases entries.len(),
{
    if entries.len() > 0 {
        let before = entries.drop_last();
        law_the_manifest_holds_what_was_found(before, k, id);
        if 0 <= k < before.len() && forall|i: int|
            k < i < entries.len() ==> (#[trigger] entries[i]).asset_id@ != entries[k].asset_id@ {
            assert(entries[entries.len() - 1].asset_id@ != entries[k].asset_id@);
            assert forall|i: int| k < i < before.len() implies (#[trigger] before[i]).asset_id@
                != before[k].asset_id@ by {
                assert(before[i] == entries[i]);
            }
            assert(before[k] == entries[k]);
        }
        if forall|i: int| 0 <= i < entries.len() ==> (#[trigger] entries[i]).asset_id@ != id {
            assert(entries[entries.len() - 1].asset_id@ != id);
            assert forall|i: int| 0 <= i < before.len() implies (#[trigger] before[i]).asset_id@
                != id by {
                assert(before[i] == entries[i]);
            }
        }
    }
}

/// What passes admission is to be downloaded, in the order in which it was found, and
/// what does not is told with its reason, in that order too.
pub proof fn law_admission_keeps_the_order(
    manifest: Map<Seq<char>, ManifestEntry>,
    ids: Seq<Seq<char>>,
    next: Seq<char>,
)
    ensures
        passing(manifest, Seq::empty()).len() == 0,
        refusals(manifest, Seq::empty()).len() == 0,
        gate::admission(manifest, next) matches Ok(a) ==> passing(manifest, ids.push(next))
            == passing(manifest, ids).push(a) && refusals(manifest, ids.push(next)) == refusals(
            manifest,
            ids,
        ),
        gate::admission(manifest, next) matches Err(e) ==> passing(manifest, ids.push(next))
            == passing(manifest, ids) && refusals(manifest, ids.push(next)) == refusals(
            manifest,
            ids,
        ).push(e.words()),
{
    assert(ids.push(next).drop_last() =~= ids);
}

/// What was asked about is what was found, in its order.
pub proof fn law_everything_found_is_asked_about(entries: Seq<ManifestEntry>, i: int)
    ensures
        ids_of(entries).len() == entries.len(),
        0 <= i < entries.len() ==> ids_of(entries)[i] == entries[i].asset_id@,
{
}

/// Where nothing that was found can be used, the reason tells how much was found and
/// what was against each of it, or that nothing was found.
pub proof fn law_what_is_against_is_told(entries: Seq<ManifestEntry>)
    ensures
        entries.len() == 0 ==> nothing_usable(entries) == "источник не вернул ни одного ассета"@,
        entries.len() > 0 ==> text::joined(
            refusals(manifest_of(entries), ids_of(entries)),
            "; "@,
        ).is_suffix_of(nothing_usable(entries)),
        entries.len() > 0 ==> ("гейт не допустил ни одного ассета из "@ + text::decimal(
            entries.len(),
        )).is_prefix_of(nothing_usable(entries)),
{
    if entries.len() > 0 {
        let w = nothing_usable(entries);
        let all = text::joined(refusals(manifest_of(entries), ids_of(entries)), "; "@);
        let head = "гейт не допустил ни одного ассета из "@ + text::decimal(entries.len());
        assert(all =~= w.subrange(w.len() - all.len(), w.len() as int));
        assert(head =~= w.subrange(0, head.len() as int));
    }
}

/// A picture that arrived is kept with where it lies, how large it is and its format,
/// under the asset that was due, which is then one to be rendered; one that did not is
/// told with its reason. Either way the next asset is due, and nothing else changes.
pub proof fn law_what_arrived_is_kept(
    f: FetchingView,
    path: String,
    bytes: u64,
    format: ImageFormat,
    e: FetchError,
)
    requires
        0 <= f.next < f.admitted.len(),
    ensures
        ({
            let ok = f.after(Ok((path, bytes, format)));
            let bad = f.after(Err(e));
            &&& ok.next == f.next + 1
            &&& ok.downloaded.len() == f.downloaded.len() + 1
            &&& ok.downloaded.drop_last() == f.downloaded
            &&& ok.downloaded.last().asset_id == f.admitted[f.next].asset_id
            &&& ok.downloaded.last().path == path@
            &&& ok.downloaded.last().bytes == bytes
            &&& ok.downloaded.last().format == format
            &&& ok.usable == f.usable.push(f.admitted[f.next])
            &&& ok.failures == f.failures
            &&& ok.admitted == f.admitted
            &&& ok.manifest == f.manifest
            &&& bad.next == f.next + 1
            &&& bad.failures == f.failures.push(e.words())
            &&& bad.downloaded == f.downloaded
            &&& bad.usable == f.usable
            &&& bad.admitted == f.admitted
            &&& bad.manifest == f.manifest
        }),
{
    assert(f.after(Ok((path, bytes, format))).downloaded.drop_last() =~= f.downloaded);
}

/// A running task fails where nothing that was found may be used, and where nothing of
/// what may be used could be had; else it runs on. Whatever does not pass, and whatever
/// could not be had, is told in a note.
pub proof fn law_a_task_without_pictures_fails(
    tasks: Map<u128, TaskView>,
    id: u128,
    entries: Seq<ManifestEntry>,
    words: Seq<char>,
    f: FetchingView,
    dir: Seq<char>,
    now: Timestamp,
)
    requires
        tasks.dom().contains(id),
        tasks[id].status == TaskStatus::Running,
    ensures
        ({
            let t = screened(tasks, id, entries, words, now)[id];
            let c = tasks[id].context;
            let passed = passing(manifest_of(entries), ids_of(entries)).len() > 0;
            let against = refusals(manifest_of(entries), ids_of(entries));
            &&& t.status == if passed {
                TaskStatus::Running
            } else {
                TaskStatus::Failed
            }
            &&& t.context.len() == c.len() + 1 + (if !passed || against.len() > 0 {
                1int
            } else {
                0
            })
            &&& t.context[c.len() as int].content == "источник вернул "@ + text::decimal(
                entries.len(),
            ) + " кандидатов по запросу «"@ + words + "», проверяю гейтом"@
            &&& !passed ==> t.context.last().content == "Ошибка: "@ + nothing_usable(entries)
            &&& passed && against.len() > 0 ==> t.context.last().content == "отклонено гейтом: "@
                + text::joined(against, "; "@)
        }),
        ({
            let t = fetched_all(tasks, id, f, dir, now)[id];
            let c = tasks[id].context;
            &&& t.status == if f.usable.len() > 0 {
                TaskStatus::Running
            } else {
                TaskStatus::Failed
            }
            &&& t.context.len() == c.len() + 1 + (if f.failures.len() > 0 {
                1int
            } else {
                0
            })
            &&& f.failures.len() > 0 ==> t.context[c.len() as int].content == "не загружено: "@
                + text::joined(f.failures, "; "@)
            &&& f.usable.len() > 0 ==> t.context.last().content == "загружено и верифицировано "@
                + text::decimal(f.downloaded.len()) + " из "@ + text::decimal(
                f.downloaded.len() + f.failures.len(),
            ) + " допущенных, каталог "@ + dir
        }),
{
}

/// A video that was rendered ends its task: the task is done, the path of the file is an
/// entry of its own, and the last entry is the report. Without a video the task has
/// failed, and the reason is its last entry.
pub proof fn law_a_rendered_video_ends_its_task(
    tasks: Map<u128, TaskView>,
    id: u128,
    plan: PlanView,
    there: Seq<FileView>,
    outcome: RenderOutcome,
    e: RenderError,
    now: Timestamp,
)
    requires
        tasks.dom().contains(id),
        tasks[id].status == TaskStatus::Running,
    ensures
        ({
            let t = delivered(tasks, id, plan, there, Ok(outcome), now)[id];
            let n = tasks[id].context.len() as int;
            &&& t.status == TaskStatus::Done
            &&& t.context.len() == n + 2
            &&& t.context[n].role == "artifact"@
            &&& t.context[n].content == outcome.path@
            &&& t.context[n + 1].role == "assistant"@
            &&& t.context[n + 1].content == summary_of(plan, there, outcome)
        }),
        ({
            let t = delivered(tasks, id, plan, there, Err(e), now)[id];
            let n = tasks[id].context.len() as int;
            &&& t.status == TaskStatus::Failed
            &&& t.context.len() == n + 1
            &&& t.context[n].role == "system"@
            &&& t.context[n].content == "Ошибка: рендер не удался: "@ + e.words()
        }),
{
    reveal_strlit("Ошибка: рендер не удался: ");
    reveal_strlit("Ошибка: ");
    reveal_strlit("рендер не удался: ");
    assert("Ошибка: "@ + ("рендер не удался: "@ + e.words()) =~= "Ошибка: рендер не удался: "@
        + e.words());
}

/// The report on a video names every picture with its file, in their order, the credits
/// where any are owed, and the video itself with its size.
pub proof fn law_the_report_names_everything(
    plan: PlanView,
    there: Seq<FileView>,
    rendered: RenderOutcome,
    i: int,
)
    ensures
        ({
            let s = summary_of(plan, there, rendered);
            &&& text::occurs(
                text::joined(there.map_values(|f: FileView| file_line(f)), "\n"@),
                s,
            )
            &&& text::occurs(
                "\n\nТитры:\n"@ + if plan.credits_text.len() == 0 {
                    "(не требуются: только public domain)"@
                } else {
                    plan.credits_text
                },
                s,
            )
            &&& ("\n\nРезультат: "@ + rendered.path@ + " ("@ + text::decimal(rendered.bytes as nat)
                + " байт, рендер "@ + text::decimal(rendered.elapsed_ms as nat)
                + " мс)"@).is_suffix_of(s)
        }),
        0 <= i < there.len() ==> file_line(there[i]) == "  "@ + there[i].asset_id + " → "@
            + there[i].path + " ("@ + text::decimal(there[i].bytes as nat) + " байт, "@ + (
        match there[i].format {
            ImageFormat::Jpeg => "jpg"@,
            ImageFormat::Png => "png"@,
            ImageFormat::Gif => "gif"@,
            ImageFormat::WebP => "webp"@,
        }) + ")"@,
{
    let s = summary_of(plan, there, rendered);
    let a = "Видео готово.\nАссетов на таймлайне: "@ + text::decimal(plan.asset_ids.len())
        + "\n\nФайлы (скачаны и верифицированы):\n"@;
    let b = text::joined(there.map_values(|f: FileView| file_line(f)), "\n"@);
    let words = if plan.credits_text.len() == 0 {
        "(не требуются: только public domain)"@
    } else {
        plan.credits_text
    };
    let c = "\n\nТитры:\n"@ + words;
    let d = "\n\nРезультат: "@ + rendered.path@ + " ("@ + text::decimal(rendered.bytes as nat)
        + " байт, рендер "@ + text::decimal(rendered.elapsed_ms as nat) + " мс)"@;
    assert(s =~= a + b + c + d);
    let x = a.len() as int;
    let y = (a + b).len() as int;
    assert(b =~= s.skip(x).subrange(0, b.len() as int));
    assert(b.is_prefix_of(s.skip(x)));
    assert(c =~= s.skip(y).subrange(0, c.len() as int));
    assert(c.is_prefix_of(s.skip(y)));
    assert(d =~= s.subrange(s.len() - d.len(), s.len() as int));
}

/// The notes of a search tell the words that they are about.
pub proof fn law_the_notes_tell_the_words(
    words: Seq<char>,
    raw_text: Seq<char>,
    term: Seq<char>,
    elapsed_ms: u128,
    id: u128,
)
    ensures
        search_note(words) == "медиа-пайплайн: ищу материалы в Openverse по запросу «"@ + words
            + "»"@,
        nothing_note(words) == "по запросу «"@ + words + "» ничего не найдено, расширяю поиск"@,
        term_note(raw_text, Some(term), elapsed_ms) == "поисковый термин: «"@ + term + "» (из «"@
            + raw_text + "», "@ + text::decimal(elapsed_ms as nat) + " мс)"@,
        term_note(raw_text, None, elapsed_ms)
            == "модель не дала пригодный термин; ищу по тексту задачи «"@ + raw_text + "»"@,
        formats::id_text(id).is_suffix_of(cache_dir(id)),
        ".kaic/media-cache/"@.is_prefix_of(cache_dir(id)),
{
    let d = cache_dir(id);
    let n = formats::id_text(id);
    assert(n =~= d.subrange(d.len() - n.len(), d.len() as int));
    assert(".kaic/media-cache/"@ =~= d.subrange(0, ".kaic/media-cache/"@.len() as int));
}

/// Every license that is asked for is one under which assets may be used.
pub proof fn law_only_usable_licenses_are_asked_for(i: int)
    requires
        0 <= i < REQUESTED_LICENSES@.len(),
    ensures
        gate::allowed(REQUESTED_LICENSES@[i]@),
{
    let l = REQUESTED_LICENSES;
    assert(l@[0]@ == "cc0"@ && l@[1]@ == "pdm"@ && l@[2]@ == "by"@);
    assert(i == 0 || i == 1 || i == 2);
}

/// The note on the model's reply tells what came of it: the words and how long it took,
/// that nothing of use came, that a tool was asked for where there is none, or why the
/// model could not be asked.
pub proof fn law_the_reply_is_noted(
    raw_text: Seq<char>,
    t: Seq<char>,
    asked: Seq<model_backend::ToolCallView>,
    e: Seq<char>,
    elapsed_ms: u128,
)
    ensures
        extraction_note(raw_text, Ok(ResponseView::Text(t)), elapsed_ms) == term_note(
            raw_text,
            query::search_term(t),
            elapsed_ms,
        ),
        extraction_note(raw_text, Ok(ResponseView::ToolCalls(asked)), elapsed_ms)
            == "модель запросила вызов инструмента там, где инструментов нет; ищу по тексту задачи"@,
        extraction_note(raw_text, Err(e), elapsed_ms) == "извлечение термина не выполнено ("@ + e
            + "); ищу по тексту задачи"@,
{
}

/// The files of a plan are those of its assets, one for one and in their order.
pub proof fn law_files_go_with_their_assets(there: Seq<FileView>, wanted: Seq<AssetView>, i: int)
    requires
        files_of(there, wanted),
    ensures
        there.len() == wanted.len(),
        0 <= i < there.len() ==> there[i].asset_id == wanted[i].asset_id,
{
    if 0 <= i < there.len() {
        let a = there[i];
        let b = wanted[i];
    }
}

} // verus!
