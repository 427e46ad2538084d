//! The manifest: where each asset comes from and on what terms.

use crate::clock::Timestamp;
use crate::keyed::Keyed;
use crate::text;
use vstd::prelude::*;

verus! {

/// What an asset is. Sound is not used; the variant is there to be refused.
#[derive(Debug, Clone, Copy, PartialEq, Eq, Structural)]
pub enum MediaKind {
    Image,
    Video,
    Audio,
}

/// An asset from a licensed source.
#[derive(Debug, Clone, PartialEq, Eq)]
pub struct LicensedProvenance {
    /// The source, such as "openverse".
    pub source: String,
    /// Where the file is.
    pub asset_url: String,
    /// The asset's page at its owner.
    pub landing_url: String,
    /// The license as the source names it.
    pub license: String,
    pub license_version: String,
    pub license_url: String,
    /// The terms as they were when the asset was found.
    pub license_snapshot: String,
    pub creator: Option<String>,
    pub creator_url: Option<String>,
    /// The line that names the author in the credits.
    pub attribution: String,
    pub retrieved_at: Timestamp,
}

/// An asset of the user's own.
#[derive(Debug, Clone, PartialEq, Eq)]
pub struct UserProvenance {
    pub original_path: String,
    /// The words in which the user claims the rights; none where they are blank.
    pub rights_confirmation: String,
    pub confirmed_at: Timestamp,
}

impl UserProvenance {
    /// Whether the user has claimed the rights.
    pub open spec fn confirmed(&self) -> bool {
        !text::is_blank(self.rights_confirmation@)
    }

    /// Whether the user has claimed the rights.
    pub fn is_confirmed(&self) -> (r: bool)
        ensures
            r == self.confirmed(),
    {
        !text::blank(self.rights_confirmation.as_str())
    }
}

/// Where an asset comes from.
#[derive(Debug, Clone, PartialEq, Eq)]
pub enum Provenance {
    Licensed(LicensedProvenance),
    UserOwned(UserProvenance),
}

/// What the manifest says of one asset.
#[derive(Debug, Clone, PartialEq, Eq)]
pub struct ManifestEntry {
    pub asset_id: String,
    pub kind: MediaKind,
    pub provenance: Provenance,
}

/// The same entry once more.
pub fn copy_entry(entry: &ManifestEntry) -> (r: ManifestEntry)
    ensures
        r == *entry,
{
    let provenance = match &entry.provenance {
        Provenance::Licensed(l) => Provenance::Licensed(
            LicensedProvenance {
                source: l.source.clone(),
                asset_url: l.asset_url.clone(),
                landing_url: l.landing_url.clone(),
                license: l.license.clone(),
                license_version: l.license_version.clone(),
                license_url: l.license_url.clone(),
                license_snapshot: l.license_snapshot.clone(),
                creator: copy_text(&l.creator),
                creator_url: copy_text(&l.creator_url),
                attribution: l.attribution.clone(),
                retrieved_at: l.retrieved_at,
            },
        ),
        Provenance::UserOwned(u) => Provenance::UserOwned(
            UserProvenance {
                original_path: u.original_path.clone(),
                rights_confirmation: u.rights_confirmation.clone(),
                confirmed_at: u.confirmed_at,
            },
        ),
    };
    ManifestEntry { asset_id: entry.asset_id.clone(), kind: entry.kind, provenance }
}

fn copy_text(t: &Option<String>) -> (r: Option<String>)
    ensures
        r == *t,
{
    match t {
        Some(s) => Some(s.clone()),
        None => None,
    }
}

/// The manifest of a project.
pub struct Manifest {
    entries: Keyed<ManifestEntry>,
}

impl View for Manifest {
    type V = Map<Seq<char>, ManifestEntry>;

    closed spec fn view(&self) -> Map<Seq<char>, ManifestEntry> {
        self.entries@
    }
}

impl Manifest {
    /// The identifiers of the assets, in the order in which they came.
    pub closed spec fn ids(&self) -> Seq<Seq<char>> {
        self.entries.keys()
    }

    /// A manifest without assets.
    pub fn new() -> (r: Self)
        ensures
            r@ == Map::<Seq<char>, ManifestEntry>::empty(),
            r.ids() == Seq::<Seq<char>>::empty(),
    {
        Manifest { entries: Keyed::new() }
    }

    /// Enters an asset; what was said of it before is replaced.
    pub fn insert(&mut self, entry: ManifestEntry)
        ensures
            final(self)@ == old(self)@.insert(entry.asset_id@, entry),
            final(self).ids() == if old(self)@.dom().contains(entry.asset_id@) {
                old(self).ids()
            } else {
                old(self).ids().push(entry.asset_id@)
            },
    {
        let key = entry.asset_id.clone();
        self.entries.insert(key, entry);
    }

    /// What the manifest says of an asset.
    pub fn get(&self, asset_id: &str) -> (r: Option<&ManifestEntry>)
        ensures
            r is Some <==> self@.dom().contains(asset_id@),
            r matches Some(entry) ==> *entry == self@[asset_id@],
    {
        self.entries.get(asset_id)
    }

    /// How many assets there are.
    pub fn len(&self) -> (r: usize)
        ensures
            r == self.ids().len(),
            self.ids().no_duplicates(),
            forall|id: Seq<char>| self@.dom().contains(id) <==> self.ids().contains(id),
    {
        self.entries.len()
    }

    /// Whether there are no assets.
    pub fn is_empty(&self) -> (r: bool)
        ensures
            r == (self.ids().len() == 0),
    {
        self.entries.len() == 0
    }
}

} // verus!
