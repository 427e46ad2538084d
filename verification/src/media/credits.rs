//! Credits and the render plan.
//!
//! A [`RenderPlan`] comes from [`plan_render`] alone, which puts every line that
//! an asset owes into the credits.

use crate::media::gate;
use crate::media::gate::{AssetView, Timeline};
use crate::text;
use vstd::prelude::*;

verus! {

broadcast use text::texts_push;

/// Why there is no plan.
#[derive(Debug, Clone, PartialEq, Eq)]
pub enum BuildError {
    /// There is nothing on the timeline.
    EmptyTimeline,
    /// An asset owes a line that is not in the credits. Admission lets no such
    /// asset pass.
    CreditMissing { asset_id: String },
}

impl BuildError {
    /// The error in words.
    pub open spec fn words(&self) -> Seq<char> {
        match self {
            BuildError::EmptyTimeline => "таймлайн пуст"@,
            BuildError::CreditMissing { asset_id } => "ассет "@ + asset_id@
                + " требует атрибуции, но титров для него нет"@,
        }
    }

    /// The error in words.
    pub fn message(&self) -> (r: String)
        ensures
            r@ == self.words(),
    {
        match self {
            BuildError::EmptyTimeline => String::from_str("таймлайн пуст"),
            BuildError::CreditMissing { asset_id } => {
                let mut s = String::from_str("ассет ");
                s.append(asset_id.as_str());
                s.append(" требует атрибуции, но титров для него нет");
                s
            },
        }
    }
}

/// The lines that assets owe, each once, in the order of the assets.
pub open spec fn credit_lines(assets: Seq<AssetView>) -> Seq<Seq<char>>
    decreases assets.len(),
{
    if assets.len() == 0 {
        Seq::empty()
    } else {
        let before = credit_lines(assets.drop_last());
        match assets.last().credit {
            Some(c) => if before.contains(text::trimmed(c)) {
                before
            } else {
                before.push(text::trimmed(c))
            },
            None => before,
        }
    }
}

/// The credits: the owed lines, one below the other.
pub open spec fn credits_of(assets: Seq<AssetView>) -> Seq<char> {
    text::joined(credit_lines(assets), "\n"@)
}

/// Every line that an asset owes is among the lines.
pub proof fn lemma_lines_hold_credit(assets: Seq<AssetView>, i: int)
    requires
        0 <= i < assets.len(),
        assets[i].credit is Some,
    ensures
        credit_lines(assets).contains(text::trimmed(assets[i].credit->0)),
    decreases assets.len(),
{
    let before = credit_lines(assets.drop_last());
    let line = text::trimmed(assets[i].credit->0);
    if i == assets.len() - 1 {
        if !before.contains(line) {
            assert(before.push(line)[before.len() as int] == line);
        }
    } else {
        lemma_lines_hold_credit(assets.drop_last(), i);
        assert(before.contains(line));
        if assets.last().credit is Some && !before.contains(
            text::trimmed(assets.last().credit->0),
        ) {
            let k = before.index_of(line);
            assert(before.push(text::trimmed(assets.last().credit->0))[k] == line);
        }
    }
}

/// A part occurs in the parts put together.
pub proof fn lemma_part_occurs(parts: Seq<Seq<char>>, sep: Seq<char>, i: int)
    requires
        0 <= i < parts.len(),
    ensures
        text::occurs(parts[i], text::joined(parts, sep)),
    decreases parts.len(),
{
    let all = text::joined(parts, sep);
    if parts.len() == 1 {
        assert(all.skip(0) =~= all);
        assert(parts[0] =~= all.skip(0).subrange(0, parts[0].len() as int));
    } else if i == parts.len() - 1 {
        let at = all.len() - parts[i].len();
        assert(all.skip(at) =~= parts[i]);
        assert(parts[i] =~= all.skip(at).subrange(0, parts[i].len() as int));
    } else {
        let front = parts.drop_last();
        lemma_part_occurs(front, sep, i);
        let before = text::joined(front, sep);
        let at = choose|at: int|
            0 <= at <= before.len() && parts[i].is_prefix_of(#[trigger] before.skip(at));
        assert(parts[i] =~= before.skip(at).subrange(0, parts[i].len() as int));
        assert(parts[i] =~= all.skip(at).subrange(0, parts[i].len() as int));
    }
}

/// The credits name everyone who has to be named: each line that an asset owes
/// occurs in them.
pub proof fn law_credits_are_complete(assets: Seq<AssetView>)
    ensures
        forall|i: int|
            0 <= i < assets.len() && (#[trigger] assets[i]).credit is Some ==> text::occurs(
                text::trimmed(assets[i].credit->0),
                credits_of(assets),
            ),
{
    assert forall|i: int|
        0 <= i < assets.len() && (#[trigger] assets[i]).credit is Some implies text::occurs(
        text::trimmed(assets[i].credit->0),
        credits_of(assets),
    ) by {
        lemma_lines_hold_credit(assets, i);
        let lines = credit_lines(assets);
        let k = lines.index_of(text::trimmed(assets[i].credit->0));
        lemma_part_occurs(lines, "\n"@, k);
    }
}

/// The credits are not empty where an asset owes a line, as long as the assets are
/// sound.
pub proof fn law_credits_are_not_empty(assets: Seq<AssetView>, i: int)
    requires
        0 <= i < assets.len(),
        assets[i].sound(),
        assets[i].credit is Some,
    ensures
        credits_of(assets).len() > 0,
{
    law_credits_are_complete(assets);
    let line = text::trimmed(assets[i].credit->0);
    text::lemma_blank(assets[i].credit->0);
    assert(text::occurs(line, credits_of(assets)));
    let at = choose|at: int|
        0 <= at <= credits_of(assets).len() && line.is_prefix_of(
            #[trigger] credits_of(assets).skip(at),
        );
    assert(credits_of(assets).skip(at).len() >= line.len());
}

/// No line stands in the credits twice, and every line is owed by some asset.
pub proof fn law_credits_repeat_nothing(assets: Seq<AssetView>)
    ensures
        credit_lines(assets).no_duplicates(),
        forall|l: Seq<char>| #[trigger]
            credit_lines(assets).contains(l) ==> exists|i: int|
                0 <= i < assets.len() && (#[trigger] assets[i]).credit is Some && l
                    == text::trimmed(assets[i].credit->0),
    decreases assets.len(),
{
    if assets.len() > 0 {
        let front = assets.drop_last();
        law_credits_repeat_nothing(front);
        let before = credit_lines(front);
        let lines = credit_lines(assets);
        assert forall|l: Seq<char>| #[trigger] lines.contains(l) implies exists|i: int|
            0 <= i < assets.len() && (#[trigger] assets[i]).credit is Some && l == text::trimmed(
                assets[i].credit->0,
            ) by {
            if before.contains(l) {
                let i = choose|i: int|
                    0 <= i < front.len() && (#[trigger] front[i]).credit is Some && l
                        == text::trimmed(front[i].credit->0);
                assert(assets[i] == front[i]);
            } else {
                let k = lines.index_of(l);
                if k < before.len() {
                    assert(before[k] == l);
                }
                assert(assets[assets.len() - 1].credit is Some);
            }
        }
    }
}

/// Collects the credits of a timeline: the lines that its assets owe, each once
/// and in their order. An empty timeline has none.
pub fn build_credits(timeline: &Timeline) -> (r: Result<String, BuildError>)
    ensures
        r is Ok <==> timeline@.len() > 0,
        r matches Ok(t) ==> t@ == credits_of(timeline@),
        r matches Err(e) ==> e == BuildError::EmptyTimeline,
{
    if timeline.is_empty() {
        return Err(BuildError::EmptyTimeline);
    }
    let list = timeline.assets();
    let ghost all = gate::assets(list@);
    let mut lines: Vec<String> = Vec::new();
    let mut i: usize = 0;
    assert(all.take(0) =~= Seq::<AssetView>::empty());
    assert(text::texts(lines@) =~= Seq::<Seq<char>>::empty());
    while i < list.len()
        invariant
            i <= list@.len(),
            all == gate::assets(list@),
            text::texts(lines@) == credit_lines(all.take(i as int)),
        decreases list@.len() - i,
    {
        let asset = &list[i];
        assert(all[i as int] == asset@);
        assert(all.take(i + 1).drop_last() =~= all.take(i as int));
        assert(all.take(i + 1).last() == asset@);
        match asset.credit() {
            Some(credit) => {
                let line = text::trim(credit);
                proof {
                    text::lemma_blank(credit@);
                }
                if line.as_str().is_empty() {
                    return Err(
                        BuildError::CreditMissing { asset_id: asset.asset_id().to_owned() },
                    );
                }
                if !holds(&lines, line.as_str()) {
                    lines.push(line);
                }
            },
            None => {},
        }
        i = i + 1;
    }
    assert(all.take(all.len() as int) =~= all);
    Ok(text::join(&lines, "\n"))
}

/// Whether a text is among others.
fn holds(lines: &Vec<String>, line: &str) -> (r: bool)
    ensures
        r == text::texts(lines@).contains(line@),
{
    let ghost all = text::texts(lines@);
    let mut i: usize = 0;
    while i < lines.len()
        invariant
            i <= lines@.len(),
            all == text::texts(lines@),
            forall|k: int| 0 <= k < i ==> #[trigger] all[k] != line@,
        decreases lines@.len() - i,
    {
        assert(all[i as int] == lines@[i as int]@);
        if text::same(lines[i].as_str(), line) {
            assert(all.contains(all[i as int]));
            return true;
        }
        i = i + 1;
    }
    false
}

/// What is to be rendered.
#[derive(Debug, PartialEq, Eq)]
pub struct RenderPlan {
    asset_ids: Vec<String>,
    credits_text: String,
}

/// A plan by its characters.
#[verifier::ext_equal]
pub struct PlanView {
    pub asset_ids: Seq<Seq<char>>,
    pub credits_text: Seq<char>,
}

impl View for RenderPlan {
    type V = PlanView;

    closed spec fn view(&self) -> PlanView {
        PlanView { asset_ids: text::texts(self.asset_ids@), credits_text: self.credits_text@ }
    }
}

impl Clone for RenderPlan {
    fn clone(&self) -> (r: Self)
        ensures
            r@ == self@,
    {
        let r = RenderPlan {
            asset_ids: self.asset_ids.clone(),
            credits_text: self.credits_text.clone(),
        };
        assert(text::texts(r.asset_ids@) =~= text::texts(self.asset_ids@));
        r
    }
}

/// The plan for the assets of a timeline.
pub open spec fn plan_of(assets: Seq<AssetView>) -> PlanView {
    PlanView {
        asset_ids: assets.map_values(|a: AssetView| a.asset_id),
        credits_text: credits_of(assets),
    }
}

/// Makes the plan for a timeline: its assets in their order, and credits that
/// name everyone who has to be named. There is a plan exactly if there is
/// anything on the timeline.
pub fn plan_render(timeline: &Timeline) -> (r: Result<RenderPlan, BuildError>)
    ensures
        r is Ok <==> timeline@.len() > 0,
        r matches Ok(p) ==> p@ == plan_of(timeline@),
        r matches Err(e) ==> e == BuildError::EmptyTimeline,
{
    let credits_text = match build_credits(timeline) {
        Ok(t) => t,
        Err(e) => {
            return Err(e);
        },
    };
    let list = timeline.assets();
    let ghost all = gate::assets(list@);
    proof {
        law_credits_are_complete(all);
    }
    let mut asset_ids: Vec<String> = Vec::new();
    let mut i: usize = 0;
    let ghost wanted = all.map_values(|a: AssetView| a.asset_id);
    assert(text::texts(asset_ids@) =~= wanted.take(0));
    while i < list.len()
        invariant
            i <= list@.len(),
            all == gate::assets(list@),
            wanted == all.map_values(|a: AssetView| a.asset_id),
            text::texts(asset_ids@) == wanted.take(i as int),
            credits_text@ == credits_of(all),
            forall|k: int|
                0 <= k < all.len() && (#[trigger] all[k]).credit is Some ==> text::occurs(
                    text::trimmed(all[k].credit->0),
                    credits_of(all),
                ),
        decreases list@.len() - i,
    {
        let asset = &list[i];
        assert(all[i as int] == asset@);
        match asset.credit() {
            Some(credit) => {
                let line = text::trim(credit);
                if !text::contains(credits_text.as_str(), line.as_str()) {
                    return Err(
                        BuildError::CreditMissing { asset_id: asset.asset_id().to_owned() },
                    );
                }
            },
            None => {},
        }
        asset_ids.push(asset.asset_id().to_owned());
        assert(wanted.take(i + 1) =~= wanted.take(i as int).push(wanted[i as int]));
        i = i + 1;
    }
    assert(wanted.take(wanted.len() as int) =~= wanted);
    Ok(RenderPlan { asset_ids, credits_text })
}

/// A character as it is written in a `drawtext` filter.
pub open spec fn drawtext_char(c: char) -> Seq<char> {
    if c == '\\' {
        "\\\\"@
    } else if c == '\'' {
        "\\'"@
    } else if c == ':' {
        "\\:"@
    } else if c == '\n' {
        " · "@
    } else {
        seq![c]
    }
}

/// A text as it is written in a `drawtext` filter.
pub open spec fn drawtext(s: Seq<char>) -> Seq<char>
    decreases s.len(),
{
    if s.len() == 0 {
        Seq::empty()
    } else {
        drawtext(s.drop_last()) + drawtext_char(s.last())
    }
}

/// Writes a text for a `drawtext` filter, in which quotes, colons and backslashes
/// have a meaning of their own.
pub fn escape_drawtext(s: &str) -> (r: String)
    ensures
        r@ == drawtext(s@),
{
    let v = text::chars_of(s);
    let mut out = String::new();
    let mut i: usize = 0;
    assert(s@.take(0) =~= Seq::<char>::empty());
    while i < v.len()
        invariant
            v@ == s@,
            i <= v@.len(),
            out@ == drawtext(s@.take(i as int)),
        decreases v@.len() - i,
    {
        let c: char = v[i];
        assert(s@.take(i + 1).drop_last() =~= s@.take(i as int));
        assert(s@.take(i + 1).last() == c);
        if c == '\\' {
            out.append("\\\\");
        } else if c == '\'' {
            out.append("\\'");
        } else if c == ':' {
            out.append("\\:");
        } else if c == '\n' {
            out.append(" · ");
        } else {
            let ghost before = out@;
            out.push(c);
            assert(out@ =~= before + seq![c]);
        }
        i = i + 1;
    }
    assert(s@.take(s@.len() as int) =~= s@);
    out
}

/// The arguments that name the inputs.
pub open spec fn input_args(ids: Seq<Seq<char>>) -> Seq<Seq<char>>
    decreases ids.len(),
{
    if ids.len() == 0 {
        Seq::empty()
    } else {
        input_args(ids.drop_last()).push("-i"@).push(ids.last())
    }
}

impl RenderPlan {
    /// The assets in their order.
    pub fn asset_ids(&self) -> (r: &Vec<String>)
        ensures
            text::texts(r@) == self@.asset_ids,
    {
        &self.asset_ids
    }

    /// The credits.
    pub fn credits_text(&self) -> (r: &str)
        ensures
            r@ == self@.credits_text,
    {
        self.credits_text.as_str()
    }

    /// The arguments of `ffmpeg` for the plan: the inputs, the credits burnt into
    /// the picture, and the output.
    pub fn ffmpeg_args(&self, output: &str) -> (r: Vec<String>)
        ensures
            text::texts(r@) == input_args(self@.asset_ids).push("-vf"@).push(
                "drawtext=text='"@ + drawtext(self@.credits_text) + "'"@,
            ).push(output@),
    {
        let mut args: Vec<String> = Vec::new();
        let ghost ids = self@.asset_ids;
        let mut i: usize = 0;
        assert(ids.take(0) =~= Seq::<Seq<char>>::empty());
        assert(text::texts(args@) =~= Seq::<Seq<char>>::empty());
        while i < self.asset_ids.len()
            invariant
                i <= self.asset_ids@.len(),
                ids == text::texts(self.asset_ids@),
                text::texts(args@) == input_args(ids.take(i as int)),
            decreases self.asset_ids@.len() - i,
        {
            assert(ids.take(i + 1).drop_last() =~= ids.take(i as int));
            assert(ids.take(i + 1).last() == self.asset_ids@[i as int]@);
            args.push(String::from_str("-i"));
            args.push(self.asset_ids[i].clone());
            i = i + 1;
        }
        assert(ids.take(ids.len() as int) =~= ids);
        args.push(String::from_str("-vf"));
        let mut filter = String::from_str("drawtext=text='");
        let escaped = escape_drawtext(self.credits_text.as_str());
        filter.append(escaped.as_str());
        filter.append("'");
        args.push(filter);
        args.push(output.to_owned());
        args
    }
}

/// The credits follow the order of the assets: an asset that owes nothing, or a line that
/// stands there already, adds nothing; any other adds its line, without white space
/// around it, below the ones before.
pub proof fn law_credits_follow_the_assets(assets: Seq<AssetView>, next: AssetView)
    ensures
        credit_lines(Seq::empty()).len() == 0,
        next.credit is None ==> credit_lines(assets.push(next)) == credit_lines(assets),
        next.credit matches Some(c) ==> credit_lines(assets.push(next)) == if exists|i: int|
            0 <= i < credit_lines(assets).len() && #[trigger] credit_lines(assets)[i]
                == text::trimmed(c) {
            credit_lines(assets)
        } else {
            credit_lines(assets).push(text::trimmed(c))
        },
        credits_of(assets) == text::joined(credit_lines(assets), "\n"@),
{
    assert(assets.push(next).drop_last() =~= assets);
}

/// A plan names the assets of the timeline, all of them and in their order, and holds
/// the credits of exactly these.
pub proof fn law_a_plan_is_for_the_whole_timeline(assets: Seq<AssetView>, i: int)
    ensures
        plan_of(assets).asset_ids.len() == assets.len(),
        0 <= i < assets.len() ==> plan_of(assets).asset_ids[i] == assets[i].asset_id,
        plan_of(assets).credits_text == credits_of(assets),
{
}

/// A text is written for the filter character by character: backslashes, quotes and
/// colons get a backslash before them, the end of a line becomes a dot between spaces,
/// and every other character stays.
pub proof fn law_credits_are_escaped(s: Seq<char>, c: char)
    ensures
        drawtext(Seq::empty()).len() == 0,
        c == '\\' || c == '\'' || c == ':' ==> drawtext(s.push(c)) == drawtext(s).push('\\').push(c),
        c == '\n' ==> drawtext(s.push(c)) == drawtext(s).push(' ').push('·').push(' '),
        c != '\\' && c != '\'' && c != ':' && c != '\n' ==> drawtext(s.push(c)) == drawtext(s).push(
            c,
        ),
{
    assert(s.push(c).drop_last() =~= s);
    reveal_strlit("\\\\");
    reveal_strlit("\\'");
    reveal_strlit("\\:");
    reveal_strlit(" · ");
    let before = drawtext(s);
    if c == '\\' || c == '\'' || c == ':' {
        assert(drawtext(s.push(c)) =~= before.push('\\').push(c));
    } else if c == '\n' {
        assert(drawtext(s.push(c)) =~= before.push(' ').push('·').push(' '));
    } else {
        assert(drawtext(s.push(c)) =~= before.push(c));
    }
}

/// Every asset of a plan is an input of its own, in its order.
pub proof fn law_every_asset_is_an_input(ids: Seq<Seq<char>>, i: int)
    ensures
        input_args(ids).len() == 2 * ids.len(),
        0 <= i < ids.len() ==> input_args(ids)[2 * i] == "-i"@ && input_args(ids)[2 * i + 1]
            == ids[i],
    decreases ids.len(),
{
    if ids.len() > 0 {
        law_every_asset_is_an_input(ids.drop_last(), i);
    }
}

} // verus!
