//! Admission: which assets may be used.
//!
//! An [`AdmittedAsset`] comes from [`admit_asset`] alone, and a [`Timeline`] takes
//! nothing else, so an asset that is not in the manifest cannot get there.

use crate::media::provenance::{Manifest, ManifestEntry, MediaKind, Provenance};
use crate::text;
use vstd::prelude::*;

verus! {

/// Whether a license is one of those under which assets may be used.
pub open spec fn allowed(license: Seq<char>) -> bool {
    license == "cc0"@ || license == "pdm"@ || license == "by"@
}

/// Whether a license asks for the author to be named.
pub open spec fn needs_credit(license: Seq<char>) -> bool {
    license != "cc0"@ && license != "pdm"@
}

/// Whether a license is one of those under which assets may be used.
fn is_allowed(license: &str) -> (r: bool)
    ensures
        r == allowed(license@),
{
    text::same(license, "cc0") || text::same(license, "pdm") || text::same(license, "by")
}

/// Whether a license asks for the author to be named: all do but those that
/// leave a work to everybody.
pub fn requires_attribution(license: &str) -> (r: bool)
    ensures
        r == needs_credit(license@),
{
    !(text::same(license, "cc0") || text::same(license, "pdm"))
}

/// Why a license is not admitted.
pub open spec fn reason_against(license: Seq<char>) -> Seq<char> {
    if license == "by-nd"@ || license == "by-nc-nd"@ {
        "лицензия ND запрещает производные произведения, а монтаж — производное"@
    } else if license == "by-nc"@ || license == "by-nc-sa"@ {
        "лицензия NC ограничивает коммерческое использование; для v1 не разрешена"@
    } else if license == "by-sa"@ {
        "ShareAlike распространяет свою лицензию на весь результат; для v1 не разрешена"@
    } else {
        "лицензия не входит в список разрешённых для v1"@
    }
}

/// Why a license is not admitted.
pub fn rejection_reason(license: &str) -> (r: &'static str)
    ensures
        r@ == reason_against(license@),
{
    if text::same(license, "by-nd") || text::same(license, "by-nc-nd") {
        "лицензия ND запрещает производные произведения, а монтаж — производное"
    } else if text::same(license, "by-nc") || text::same(license, "by-nc-sa") {
        "лицензия NC ограничивает коммерческое использование; для v1 не разрешена"
    } else if text::same(license, "by-sa") {
        "ShareAlike распространяет свою лицензию на весь результат; для v1 не разрешена"
    } else {
        "лицензия не входит в список разрешённых для v1"
    }
}

/// Why an asset is not admitted.
#[derive(Debug, Clone, PartialEq, Eq)]
pub enum GateRejection {
    /// The asset is not in the manifest.
    NoManifestEntry { asset_id: String },
    /// The asset is sound.
    AudioNotAllowed { asset_id: String },
    /// The license is not one under which assets may be used.
    LicenseNotAllowed { asset_id: String, license: String, reason: &'static str },
    /// The license asks for the author to be named, and no author is known.
    AttributionMissing { asset_id: String },
    /// The user has not claimed the rights.
    RightsNotConfirmed { asset_id: String },
}

/// A rejection by its characters.
#[verifier::ext_equal]
pub enum RejectionView {
    NoManifestEntry { asset_id: Seq<char> },
    AudioNotAllowed { asset_id: Seq<char> },
    LicenseNotAllowed { asset_id: Seq<char>, license: Seq<char>, reason: Seq<char> },
    AttributionMissing { asset_id: Seq<char> },
    RightsNotConfirmed { asset_id: Seq<char> },
}

impl View for GateRejection {
    type V = RejectionView;

    open spec fn view(&self) -> RejectionView {
        match self {
            GateRejection::NoManifestEntry { asset_id } => RejectionView::NoManifestEntry {
                asset_id: asset_id@,
            },
            GateRejection::AudioNotAllowed { asset_id } => RejectionView::AudioNotAllowed {
                asset_id: asset_id@,
            },
            GateRejection::LicenseNotAllowed { asset_id, license, reason } => {
                RejectionView::LicenseNotAllowed {
                    asset_id: asset_id@,
                    license: license@,
                    reason: reason@,
                }
            },
            GateRejection::AttributionMissing { asset_id } => RejectionView::AttributionMissing {
                asset_id: asset_id@,
            },
            GateRejection::RightsNotConfirmed { asset_id } => RejectionView::RightsNotConfirmed {
                asset_id: asset_id@,
            },
        }
    }
}

impl RejectionView {
    /// The rejection in words.
    pub open spec fn words(self) -> Seq<char> {
        match self {
            RejectionView::NoManifestEntry { asset_id } => "ассет "@ + asset_id
                + " отсутствует в провенанс-манифесте"@,
            RejectionView::AudioNotAllowed { asset_id } => "ассет "@ + asset_id
                + " — аудио; музыка исключена из v1"@,
            RejectionView::LicenseNotAllowed { asset_id, license, reason } => "ассет "@ + asset_id
                + ": лицензия '"@ + license + "' не допущена — "@ + reason,
            RejectionView::AttributionMissing { asset_id } => "ассет "@ + asset_id
                + ": лицензия требует атрибуции, но автор не указан"@,
            RejectionView::RightsNotConfirmed { asset_id } => "ассет "@ + asset_id
                + ": права пользователя не подтверждены"@,
        }
    }
}

impl GateRejection {
    /// The rejection in words.
    pub fn message(&self) -> (r: String)
        ensures
            r@ == self@.words(),
    {
        let mut s = String::from_str("ассет ");
        match self {
            GateRejection::NoManifestEntry { asset_id } => {
                s.append(asset_id.as_str());
                s.append(" отсутствует в провенанс-манифесте");
            },
            GateRejection::AudioNotAllowed { asset_id } => {
                s.append(asset_id.as_str());
                s.append(" — аудио; музыка исключена из v1");
            },
            GateRejection::LicenseNotAllowed { asset_id, license, reason } => {
                s.append(asset_id.as_str());
                s.append(": лицензия '");
                s.append(license.as_str());
                s.append("' не допущена — ");
                s.append(*reason);
            },
            GateRejection::AttributionMissing { asset_id } => {
                s.append(asset_id.as_str());
                s.append(": лицензия требует атрибуции, но автор не указан");
            },
            GateRejection::RightsNotConfirmed { asset_id } => {
                s.append(asset_id.as_str());
                s.append(": права пользователя не подтверждены");
            },
        }
        s
    }
}

/// An asset that passed admission.
#[derive(Debug, PartialEq, Eq)]
pub struct AdmittedAsset {
    asset_id: String,
    kind: MediaKind,
    credit: Option<String>,
    license: String,
}

/// An admitted asset by its characters.
#[verifier::ext_equal]
pub struct AssetView {
    pub asset_id: Seq<char>,
    pub kind: MediaKind,
    /// The line of the credits that the asset owes, where it owes one.
    pub credit: Option<Seq<char>>,
    pub license: Seq<char>,
}

impl AssetView {
    /// What holds of every admitted asset: it is not sound; it is the user's own
    /// or its license is one of those that are allowed; and it owes a line of the
    /// credits, which is not blank, exactly if the license asks for one.
    pub open spec fn sound(self) -> bool {
        &&& self.kind != MediaKind::Audio
        &&& self.license == "user-owned"@ || allowed(self.license)
        &&& self.credit is Some <==> self.license != "user-owned"@ && needs_credit(self.license)
        &&& self.credit matches Some(c) ==> !text::is_blank(c)
    }
}

impl View for AdmittedAsset {
    type V = AssetView;

    closed spec fn view(&self) -> AssetView {
        AssetView {
            asset_id: self.asset_id@,
            kind: self.kind,
            credit: text::opt_text(self.credit),
            license: self.license@,
        }
    }
}

impl AdmittedAsset {
    #[verifier::type_invariant]
    spec fn passed(self) -> bool {
        self@.sound()
    }

    /// The asset's identifier.
    pub fn asset_id(&self) -> (r: &str)
        ensures
            r@ == self@.asset_id,
    {
        self.asset_id.as_str()
    }

    /// What the asset is.
    pub fn kind(&self) -> (r: MediaKind)
        ensures
            r == self@.kind,
            r != MediaKind::Audio,
    {
        proof {
            use_type_invariant(self);
        }
        self.kind
    }

    /// The line of the credits that the asset owes, where it owes one.
    pub fn credit(&self) -> (r: Option<&str>)
        ensures
            match r {
                Some(c) => self@.credit == Some(c@),
                None => self@.credit is None,
            },
            self@.sound(),
    {
        proof {
            use_type_invariant(self);
        }
        match &self.credit {
            Some(c) => Some(c.as_str()),
            None => None,
        }
    }

    /// The license under which the asset was admitted.
    pub fn license(&self) -> (r: &str)
        ensures
            r@ == self@.license,
            self@.sound(),
    {
        proof {
            use_type_invariant(self);
        }
        self.license.as_str()
    }
}

impl Clone for AdmittedAsset {
    fn clone(&self) -> (r: Self)
        ensures
            r@ == self@,
    {
        proof {
            use_type_invariant(self);
        }
        let credit: Option<String> = match &self.credit {
            Some(c) => Some(c.clone()),
            None => None,
        };
        AdmittedAsset {
            asset_id: self.asset_id.clone(),
            kind: self.kind,
            credit,
            license: self.license.clone(),
        }
    }
}

/// What admission says of an asset: it has to be in the manifest and not sound;
/// under a license it has to be an allowed one, with an author to name where the
/// license asks for that; of the user's own the rights have to be claimed.
pub open spec fn admission(manifest: Map<Seq<char>, ManifestEntry>, asset_id: Seq<char>) -> Result<
    AssetView,
    RejectionView,
> {
    if !manifest.dom().contains(asset_id) {
        Err(RejectionView::NoManifestEntry { asset_id })
    } else {
        let entry = manifest[asset_id];
        if entry.kind == MediaKind::Audio {
            Err(RejectionView::AudioNotAllowed { asset_id })
        } else {
            match entry.provenance {
                Provenance::Licensed(l) => if !allowed(l.license@) {
                    Err(
                        RejectionView::LicenseNotAllowed {
                            asset_id,
                            license: l.license@,
                            reason: reason_against(l.license@),
                        },
                    )
                } else if needs_credit(l.license@) && text::is_blank(l.attribution@) {
                    Err(RejectionView::AttributionMissing { asset_id })
                } else {
                    Ok(
                        AssetView {
                            asset_id,
                            kind: entry.kind,
                            credit: if needs_credit(l.license@) {
                                Some(l.attribution@)
                            } else {
                                None
                            },
                            license: l.license@,
                        },
                    )
                },
                Provenance::UserOwned(u) => if !u.confirmed() {
                    Err(RejectionView::RightsNotConfirmed { asset_id })
                } else {
                    Ok(
                        AssetView {
                            asset_id,
                            kind: entry.kind,
                            credit: None,
                            license: "user-owned"@,
                        },
                    )
                },
            }
        }
    }
}

/// The view of what admission said.
pub open spec fn verdict(r: Result<AdmittedAsset, GateRejection>) -> Result<
    AssetView,
    RejectionView,
> {
    match r {
        Ok(a) => Ok(a@),
        Err(e) => Err(e@),
    }
}

/// Lets an asset pass, or says why not.
pub fn admit_asset(manifest: &Manifest, asset_id: &str) -> (r: Result<AdmittedAsset, GateRejection>)
    ensures
        verdict(r) == admission(manifest@, asset_id@),
        r matches Ok(a) ==> a@.sound(),
{
    proof {
        lemma_user_owned_is_no_license();
    }
    let entry = match manifest.get(asset_id) {
        Some(entry) => entry,
        None => {
            return Err(GateRejection::NoManifestEntry { asset_id: asset_id.to_owned() });
        },
    };
    if entry.kind == MediaKind::Audio {
        return Err(GateRejection::AudioNotAllowed { asset_id: asset_id.to_owned() });
    }
    match &entry.provenance {
        Provenance::Licensed(licensed) => {
            if !is_allowed(licensed.license.as_str()) {
                return Err(
                    GateRejection::LicenseNotAllowed {
                        asset_id: asset_id.to_owned(),
                        license: licensed.license.clone(),
                        reason: rejection_reason(licensed.license.as_str()),
                    },
                );
            }
            let credit: Option<String> = if requires_attribution(licensed.license.as_str()) {
                if text::blank(licensed.attribution.as_str()) {
                    return Err(
                        GateRejection::AttributionMissing { asset_id: asset_id.to_owned() },
                    );
                }
                Some(licensed.attribution.clone())
            } else {
                None
            };
            Ok(
                AdmittedAsset {
                    asset_id: asset_id.to_owned(),
                    kind: entry.kind,
                    credit,
                    license: licensed.license.clone(),
                },
            )
        },
        Provenance::UserOwned(user) => {
            if !user.is_confirmed() {
                return Err(GateRejection::RightsNotConfirmed { asset_id: asset_id.to_owned() });
            }
            Ok(
                AdmittedAsset {
                    asset_id: asset_id.to_owned(),
                    kind: entry.kind,
                    credit: None,
                    license: String::from_str("user-owned"),
                },
            )
        },
    }
}

proof fn lemma_user_owned_is_no_license()
    ensures
        !allowed("user-owned"@),
{
    reveal_strlit("user-owned");
    reveal_strlit("cc0");
    reveal_strlit("pdm");
    reveal_strlit("by");
    assert("user-owned"@.len() == 10);
}

/// An asset that is not in the manifest is never admitted.
pub proof fn law_no_entry_no_admission(
    manifest: Map<Seq<char>, ManifestEntry>,
    asset_id: Seq<char>,
)
    requires
        !manifest.dom().contains(asset_id),
    ensures
        admission(manifest, asset_id) == Err::<AssetView, RejectionView>(
            RejectionView::NoManifestEntry { asset_id },
        ),
{
}

/// Sound is never admitted, whatever its license.
pub proof fn law_sound_is_never_admitted(
    manifest: Map<Seq<char>, ManifestEntry>,
    asset_id: Seq<char>,
)
    requires
        manifest.dom().contains(asset_id),
        manifest[asset_id].kind == MediaKind::Audio,
    ensures
        admission(manifest, asset_id) is Err,
{
}

/// What is admitted is sound in the sense of [`AssetView::sound`], and it is the
/// asset that was asked for, as the manifest has it.
pub proof fn law_admitted_assets_are_sound(
    manifest: Map<Seq<char>, ManifestEntry>,
    asset_id: Seq<char>,
)
    ensures
        admission(manifest, asset_id) matches Ok(a) ==> a.sound() && a.asset_id == asset_id
            && manifest.dom().contains(asset_id) && a.kind == manifest[asset_id].kind,
{
    lemma_user_owned_is_no_license();
}

/// The order of the pictures. It holds admitted assets only.
#[derive(Debug)]
pub struct Timeline {
    assets: Vec<AdmittedAsset>,
}

/// The views of several assets.
pub open spec fn assets(v: Seq<AdmittedAsset>) -> Seq<AssetView> {
    v.map_values(|a: AdmittedAsset| a@)
}

/// Appending an asset appends its view.
pub broadcast proof fn assets_push(v: Seq<AdmittedAsset>, a: AdmittedAsset)
    ensures
        #[trigger] assets(v.push(a)) == assets(v).push(a@),
{
    assert(assets(v.push(a)) =~= assets(v).push(a@));
}

impl View for Timeline {
    type V = Seq<AssetView>;

    closed spec fn view(&self) -> Seq<AssetView> {
        assets(self.assets@)
    }
}

impl Clone for Timeline {
    fn clone(&self) -> (r: Self)
        ensures
            r@ == self@,
    {
        let r = Timeline { assets: self.assets.clone() };
        assert(r@ =~= self@);
        r
    }
}

impl Default for Timeline {
    fn default() -> (r: Self)
        ensures
            r@ == Seq::<AssetView>::empty(),
    {
        Timeline::new()
    }
}

impl Timeline {
    /// A timeline without assets.
    pub fn new() -> (r: Self)
        ensures
            r@ == Seq::<AssetView>::empty(),
    {
        let r = Timeline { assets: Vec::new() };
        assert(r@ =~= Seq::<AssetView>::empty());
        r
    }

    /// Puts an asset at the end.
    pub fn push(&mut self, asset: AdmittedAsset)
        ensures
            final(self)@ == old(self)@.push(asset@),
    {
        broadcast use assets_push;

        self.assets.push(asset);
    }

    /// The assets in their order.
    pub fn assets(&self) -> (r: &Vec<AdmittedAsset>)
        ensures
            assets(r@) == self@,
    {
        &self.assets
    }

    /// Whether there are no assets.
    pub fn is_empty(&self) -> (r: bool)
        ensures
            r == (self@.len() == 0),
    {
        self.assets.len() == 0
    }
}

proof fn lemma_licenses_differ()
    ensures
        "by"@ != "cc0"@,
        "by"@ != "pdm"@,
        "cc0"@ != "pdm"@,
{
    reveal_strlit("by");
    reveal_strlit("cc0");
    reveal_strlit("pdm");
    assert("by"@.len() != "cc0"@.len());
    assert("by"@.len() != "pdm"@.len());
    assert("cc0"@[0] != "pdm"@[0]);
}

/// An asset under a license is admitted exactly if it is no sound, the license leaves it
/// to everybody or asks for no more than the author's name, and there is a name where one
/// is asked for; then it owes that very name, and else nothing.
pub proof fn law_a_licensed_asset_passes_by_its_license(
    manifest: Map<Seq<char>, ManifestEntry>,
    asset_id: Seq<char>,
)
    requires
        manifest.dom().contains(asset_id),
        manifest[asset_id].provenance is Licensed,
    ensures
        ({
            let e = manifest[asset_id];
            let l = e.provenance->Licensed_0;
            let r = admission(manifest, asset_id);
            let free = l.license@ == "cc0"@ || l.license@ == "pdm"@;
            let named = l.license@ == "by"@ && !text::is_blank(l.attribution@);
            &&& r is Ok <==> e.kind != MediaKind::Audio && (free || named)
            &&& r matches Ok(a) ==> {
                &&& a.asset_id == asset_id
                &&& a.kind == e.kind
                &&& a.license == l.license@
                &&& free ==> a.credit is None
                &&& named ==> a.credit == Some(l.attribution@)
            }
            &&& e.kind == MediaKind::Audio ==> r == Err::<AssetView, RejectionView>(
                RejectionView::AudioNotAllowed { asset_id },
            )
            &&& e.kind != MediaKind::Audio && l.license@ == "by"@ && text::is_blank(l.attribution@)
                ==> r == Err::<AssetView, RejectionView>(
                RejectionView::AttributionMissing { asset_id },
            )
            &&& e.kind != MediaKind::Audio && !free && l.license@ != "by"@ ==> (r matches Err(
                RejectionView::LicenseNotAllowed { asset_id: a, license, .. },
            ) && a == asset_id && license == l.license@)
        }),
{
    lemma_licenses_differ();
}

/// An asset of the user's own is admitted exactly if it is no sound and the rights were
/// claimed; it owes nothing to the credits.
pub proof fn law_the_users_own_passes_by_the_claim(
    manifest: Map<Seq<char>, ManifestEntry>,
    asset_id: Seq<char>,
)
    requires
        manifest.dom().contains(asset_id),
        manifest[asset_id].provenance is UserOwned,
    ensures
        ({
            let e = manifest[asset_id];
            let u = e.provenance->UserOwned_0;
            let r = admission(manifest, asset_id);
            &&& r is Ok <==> e.kind != MediaKind::Audio && !text::is_blank(u.rights_confirmation@)
            &&& r matches Ok(a) ==> a.asset_id == asset_id && a.kind == e.kind && a.credit is None
                && a.license == "user-owned"@
            &&& e.kind != MediaKind::Audio && text::is_blank(u.rights_confirmation@) ==> r == Err::<
                AssetView,
                RejectionView,
            >(RejectionView::RightsNotConfirmed { asset_id })
        }),
{
}

/// Every license but those that leave a work to everybody asks for the author's name.
pub proof fn law_most_licenses_ask_for_the_author(license: Seq<char>)
    ensures
        needs_credit(license) <==> license != "cc0"@ && license != "pdm"@,
        allowed(license) <==> license == "cc0"@ || license == "pdm"@ || license == "by"@,
{
}

/// A license is refused for what it asks: one that forbids changes for that, also where
/// it forbids gain as well; one that forbids gain for that, also where it wants its own
/// terms kept; one that only wants its terms kept for that; any other for not being on
/// the list.
pub proof fn law_a_license_is_refused_for_what_it_asks(license: Seq<char>)
    ensures
        reason_against("by-nd"@)
            == "лицензия ND запрещает производные произведения, а монтаж — производное"@,
        reason_against("by-nc-nd"@)
            == "лицензия ND запрещает производные произведения, а монтаж — производное"@,
        reason_against("by-nc"@)
            == "лицензия NC ограничивает коммерческое использование; для v1 не разрешена"@,
        reason_against("by-nc-sa"@)
            == "лицензия NC ограничивает коммерческое использование; для v1 не разрешена"@,
        reason_against("by-sa"@)
            == "ShareAlike распространяет свою лицензию на весь результат; для v1 не разрешена"@,
        license != "by-nd"@ && license != "by-nc-nd"@ && license != "by-nc"@ && license
            != "by-nc-sa"@ && license != "by-sa"@ ==> reason_against(license)
            == "лицензия не входит в список разрешённых для v1"@,
{
    reveal_strlit("by-nd");
    reveal_strlit("by-nc-nd");
    reveal_strlit("by-nc");
    reveal_strlit("by-nc-sa");
    reveal_strlit("by-sa");
    assert("by-nd"@[4] != "by-nc"@[4]);
    assert("by-nd"@[3] != "by-sa"@[3]);
    assert("by-nc"@[3] != "by-sa"@[3]);
    assert("by-nc-nd"@[6] != "by-nc-sa"@[6]);
    assert("by-nc-nd"@.len() != "by-nc"@.len());
}

/// A rejection names its asset and, of a license, the license and what is against it.
pub proof fn law_a_rejection_names_its_asset(
    asset_id: Seq<char>,
    license: Seq<char>,
    reason: Seq<char>,
)
    ensures
        ("ассет "@ + asset_id).is_prefix_of(RejectionView::NoManifestEntry { asset_id }.words()),
        ("ассет "@ + asset_id).is_prefix_of(RejectionView::AudioNotAllowed { asset_id }.words()),
        ("ассет "@ + asset_id).is_prefix_of(RejectionView::AttributionMissing { asset_id }.words()),
        ("ассет "@ + asset_id).is_prefix_of(RejectionView::RightsNotConfirmed { asset_id }.words()),
        ("ассет "@ + asset_id + ": лицензия '"@ + license).is_prefix_of(
            RejectionView::LicenseNotAllowed { asset_id, license, reason }.words(),
        ),
        reason.is_suffix_of(RejectionView::LicenseNotAllowed { asset_id, license, reason }.words()),
{
    let head = "ассет "@ + asset_id;
    let n = head.len() as int;
    assert(head =~= RejectionView::NoManifestEntry { asset_id }.words().subrange(0, n));
    assert(head =~= RejectionView::AudioNotAllowed { asset_id }.words().subrange(0, n));
    assert(head =~= RejectionView::AttributionMissing { asset_id }.words().subrange(0, n));
    assert(head =~= RejectionView::RightsNotConfirmed { asset_id }.words().subrange(0, n));
    let w = RejectionView::LicenseNotAllowed { asset_id, license, reason }.words();
    let long = head + ": лицензия '"@ + license;
    assert(long =~= w.subrange(0, long.len() as int));
    assert(reason =~= w.subrange(w.len() - reason.len(), w.len() as int));
}

} // verus!
