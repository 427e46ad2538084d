//! The source of pictures: what is asked of it, and what its results mean.

use crate::clock::Timestamp;
use crate::media::provenance::{LicensedProvenance, ManifestEntry, MediaKind, Provenance};
use crate::text;
use vstd::prelude::*;

verus! {

/// The name of the source.
pub const SOURCE_ID: &'static str = "openverse";

/// Where pictures are searched.
pub const API_IMAGES: &'static str = "https://api.openverse.org/v1/images/";

/// How the program calls itself.
pub const USER_AGENT: &'static str = "KAIC-media-pipeline/0.1";

/// What a search found.
pub struct SearchResponse {
    pub results: Vec<SearchResult>,
}

/// One picture that was found.
pub struct SearchResult {
    pub id: String,
    pub title: Option<String>,
    pub url: String,
    pub foreign_landing_url: String,
    pub license: String,
    pub license_version: Option<String>,
    pub license_url: Option<String>,
    pub creator: Option<String>,
    pub creator_url: Option<String>,
    pub attribution: Option<String>,
}

/// An optional text, empty where there is none.
pub open spec fn or_empty(t: Option<String>) -> Seq<char> {
    match t {
        Some(s) => s@,
        None => Seq::empty(),
    }
}

impl SearchResult {
    /// Where the license can be read.
    pub open spec fn terms_url(&self) -> Seq<char> {
        match self.license_url {
            Some(u) => u@,
            None => "https://creativecommons.org/licenses/"@ + self.license@ + "/"@,
        }
    }

    /// The terms as they stand: the author's line, where the license can be read,
    /// and its version.
    pub open spec fn snapshot(&self) -> Seq<char> {
        or_empty(self.attribution) + " | "@ + self.terms_url() + " | версия "@ + or_empty(
            self.license_version,
        )
    }
}

fn or_empty_text(t: &Option<String>) -> (r: String)
    ensures
        r@ == or_empty(*t),
{
    match t {
        Some(s) => s.clone(),
        None => String::new(),
    }
}

fn copy_text(t: &Option<String>) -> (r: Option<String>)
    ensures
        r == *t,
{
    match t {
        Some(s) => Some(s.clone()),
        None => None,
    }
}

/// Whether a manifest entry says what a search result says: a picture of the
/// source, with everything that its terms ask for.
pub open spec fn records(entry: ManifestEntry, result: SearchResult, now: Timestamp) -> bool {
    &&& entry.asset_id@ == "openverse"@ + ":"@ + result.id@
    &&& entry.kind == MediaKind::Image
    &&& entry.provenance matches Provenance::Licensed(p) && {
        &&& p.source@ == "openverse"@
        &&& p.asset_url@ == result.url@
        &&& p.landing_url@ == result.foreign_landing_url@
        &&& p.license@ == result.license@
        &&& p.license_version@ == or_empty(result.license_version)
        &&& p.license_url@ == result.terms_url()
        &&& p.license_snapshot@ == result.snapshot()
        &&& p.creator == result.creator
        &&& p.creator_url == result.creator_url
        &&& p.attribution@ == or_empty(result.attribution)
        &&& p.retrieved_at == now
    }
}

/// Turns a search result, found now, into a manifest entry. Nothing is approved
/// here: that is admission's part.
pub fn to_manifest_entry(result: &SearchResult, now: Timestamp) -> (r: ManifestEntry)
    ensures
        records(r, *result, now),
{
    let license_url = match &result.license_url {
        Some(u) => u.clone(),
        None => {
            let mut s = String::from_str("https://creativecommons.org/licenses/");
            s.append(result.license.as_str());
            s.append("/");
            s
        },
    };
    let attribution = or_empty_text(&result.attribution);
    let license_version = or_empty_text(&result.license_version);
    let mut license_snapshot = attribution.clone();
    license_snapshot.append(" | ");
    license_snapshot.append(license_url.as_str());
    license_snapshot.append(" | версия ");
    license_snapshot.append(license_version.as_str());
    let mut asset_id = String::from_str(SOURCE_ID);
    asset_id.append(":");
    asset_id.append(result.id.as_str());
    ManifestEntry {
        asset_id,
        kind: MediaKind::Image,
        provenance: Provenance::Licensed(
            LicensedProvenance {
                source: String::from_str(SOURCE_ID),
                asset_url: result.url.clone(),
                landing_url: result.foreign_landing_url.clone(),
                license: result.license.clone(),
                license_version,
                license_url,
                license_snapshot,
                creator: copy_text(&result.creator),
                creator_url: copy_text(&result.creator_url),
                attribution,
                retrieved_at: now,
            },
        ),
    }
}

/// Turns what a search found, now, into manifest entries, one for each result
/// and in their order.
pub fn to_manifest_entries(response: &SearchResponse, now: Timestamp) -> (r: Vec<ManifestEntry>)
    ensures
        r@.len() == response.results@.len(),
        forall|i: int|
            0 <= i < r@.len() ==> records(#[trigger] r@[i], response.results@[i], now),
{
    let mut out: Vec<ManifestEntry> = Vec::new();
    let mut i: usize = 0;
    while i < response.results.len()
        invariant
            i <= response.results@.len(),
            out@.len() == i,
            forall|k: int| 0 <= k < i ==> records(#[trigger] out@[k], response.results@[k], now),
        decreases response.results@.len() - i,
    {
        out.push(to_manifest_entry(&response.results[i], now));
        i = i + 1;
    }
    out
}

/// The parameters of a search: the words, the licenses with a comma between each
/// two, and how many results are wanted.
pub fn search_parameters(query: &str, licenses: &Vec<String>, page_size: u8) -> (r: Vec<
    (String, String),
>)
    ensures
        r@.map_values(|p: (String, String)| (p.0@, p.1@)) == seq![
            ("q"@, query@),
            ("license"@, text::joined(text::texts(licenses@), ","@)),
            ("page_size"@, text::decimal(page_size as nat)),
        ],
{
    let mut out: Vec<(String, String)> = Vec::new();
    out.push((String::from_str("q"), query.to_owned()));
    out.push((String::from_str("license"), text::join(licenses, ",")));
    out.push((String::from_str("page_size"), text::show(page_size as u64)));
    assert(out@.map_values(|p: (String, String)| (p.0@, p.1@)) =~= seq![
        ("q"@, query@),
        ("license"@, text::joined(text::texts(licenses@), ","@)),
        ("page_size"@, text::decimal(page_size as nat)),
    ]);
    out
}

/// What is said when the source answers with an error: its status, the address
/// that was asked, and the answer, which tells why.
pub fn search_failure(status: &str, url: &str, body: &str) -> (r: String)
    ensures
        r@ == "Openverse ответил "@ + status@ + " на "@ + url@ + ": "@ + body@,
{
    let mut s = String::from_str("Openverse ответил ");
    s.append(status);
    s.append(" на ");
    s.append(url);
    s.append(": ");
    s.append(body);
    s
}

/// Looks at the status of the source's answer, a number and the way it is shown.
/// Only with a success does the answer hold results.
pub fn search_answered(status: u16, shown: &str, url: &str, body: &str) -> (r: Result<(), String>)
    ensures
        r is Ok <==> 200 <= status < 300,
        r matches Err(e) ==> e@ == "Openverse ответил "@ + shown@ + " на "@ + url@ + ": "@ + body@,
{
    if 200 <= status && status < 300 {
        return Ok(());
    }
    Err(search_failure(shown, url, body))
}

/// What was found is written down with everything that its terms ask for: where the file
/// is and where its page is, the license with its version and where it can be read, the
/// author, and the line that names the author, as it came. The terms are kept as they
/// stand when it is found.
pub proof fn law_a_result_is_written_down_whole(
    entry: ManifestEntry,
    result: SearchResult,
    now: Timestamp,
)
    requires
        records(entry, result, now),
    ensures
        entry.asset_id@ == "openverse:"@ + result.id@,
        entry.kind == MediaKind::Image,
        entry.provenance is Licensed,
        ({
            let p = entry.provenance->Licensed_0;
            let attribution = match result.attribution {
                Some(a) => a@,
                None => Seq::empty(),
            };
            let version = match result.license_version {
                Some(v) => v@,
                None => Seq::empty(),
            };
            let terms = match result.license_url {
                Some(u) => u@,
                None => "https://creativecommons.org/licenses/"@ + result.license@ + "/"@,
            };
            &&& p.source@ == "openverse"@
            &&& p.asset_url@ == result.url@
            &&& p.landing_url@ == result.foreign_landing_url@
            &&& p.license@ == result.license@
            &&& p.license_version@ == version
            &&& p.license_url@ == terms
            &&& p.license_snapshot@ == attribution + " | "@ + terms + " | версия "@ + version
            &&& p.creator == result.creator
            &&& p.creator_url == result.creator_url
            &&& p.attribution@ == attribution
            &&& p.retrieved_at == now
        }),
{
    reveal_strlit("openverse:");
    reveal_strlit("openverse");
    reveal_strlit(":");
    assert("openverse"@ + ":"@ =~= "openverse:"@);
}

} // verus!
