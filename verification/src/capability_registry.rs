//! Which models can serve a category of tasks, in which order.

use crate::keyed::Keyed;
use crate::text;
use vstd::prelude::*;

verus! {

broadcast use text::texts_push;

/// What the registry says of one category.
#[derive(Debug, Clone)]
pub struct CapabilityEntry {
    /// The model that is meant for the category.
    pub primary: String,
    /// Models that are tried in turn where the primary one cannot serve.
    pub fallback: Vec<String>,
    /// The category is served on an explicit request only.
    pub manual_only: bool,
}

impl CapabilityEntry {
    /// The models of the category, the primary one first.
    pub open spec fn chain(&self) -> Seq<Seq<char>> {
        seq![self.primary@] + text::texts(self.fallback@)
    }
}

/// The registry: a category and its models.
pub struct CapabilityRegistry {
    entries: Keyed<CapabilityEntry>,
}

impl View for CapabilityRegistry {
    type V = Map<Seq<char>, CapabilityEntry>;

    closed spec fn view(&self) -> Map<Seq<char>, CapabilityEntry> {
        self.entries@
    }
}

/// The candidates of a category: none where the registry does not know it.
pub open spec fn candidates_of(
    reg: Map<Seq<char>, CapabilityEntry>,
    category: Seq<char>,
) -> Seq<Seq<char>> {
    if reg.dom().contains(category) {
        reg[category].chain()
    } else {
        Seq::empty()
    }
}

/// Whether a category is served on request only.
pub open spec fn manual_only(reg: Map<Seq<char>, CapabilityEntry>, category: Seq<char>) -> bool {
    reg.dom().contains(category) && reg[category].manual_only
}

impl CapabilityRegistry {
    /// The categories in the order in which they came.
    pub closed spec fn names(&self) -> Seq<Seq<char>> {
        self.entries.keys()
    }

    /// A registry of the given entries.
    pub fn new(entries: Keyed<CapabilityEntry>) -> (r: Self)
        ensures
            r@ == entries@,
            r.names() == entries.keys(),
    {
        CapabilityRegistry { entries }
    }

    /// The entry of a category, where there is one.
    pub fn get(&self, category: &str) -> (r: Option<&CapabilityEntry>)
        ensures
            r is Some <==> self@.dom().contains(category@),
            r matches Some(entry) ==> *entry == self@[category@],
    {
        self.entries.get(category)
    }

    /// The models that can serve a category: the primary one, then the others
    /// in their order; none where the category is unknown.
    pub fn candidates(&self, category: &str) -> (r: Vec<String>)
        ensures
            text::texts(r@) == candidates_of(self@, category@),
    {
        let mut result: Vec<String> = Vec::new();
        match self.entries.get(category) {
            Some(entry) => {
                result.push(entry.primary.clone());
                let ghost all = entry.chain();
                let mut i: usize = 0;
                assert(text::texts(result@) =~= all.take(1));
                while i < entry.fallback.len()
                    invariant
                        i <= entry.fallback@.len(),
                        all == entry.chain(),
                        text::texts(result@) == all.take(i + 1),
                    decreases entry.fallback@.len() - i,
                {
                    result.push(entry.fallback[i].clone());
                    assert(text::texts(result@) =~= all.take(i + 2));
                    i = i + 1;
                }
                assert(all.take(all.len() as int) =~= all);
            },
            None => {
                assert(text::texts(result@) =~= Seq::<Seq<char>>::empty());
            },
        }
        result
    }

    /// Whether a category is served on request only; an unknown one is not.
    pub fn is_manual_only(&self, category: &str) -> (r: bool)
        ensures
            r == manual_only(self@, category@),
    {
        match self.entries.get(category) {
            Some(entry) => entry.manual_only,
            None => false,
        }
    }

    /// The names of all categories.
    pub fn categories(&self) -> (r: Vec<String>)
        ensures
            text::texts(r@) == self.names(),
            self.names().no_duplicates(),
            forall|k: Seq<char>| self@.dom().contains(k) <==> self.names().contains(k),
    {
        let n: usize = self.entries.len();
        let mut out: Vec<String> = Vec::new();
        let ghost keys = self.entries.keys();
        let mut i: usize = 0;
        assert(text::texts(out@) =~= keys.take(0));
        while i < n
            invariant
                i <= n,
                n == keys.len(),
                keys == self.entries.keys(),
                text::texts(out@) == keys.take(i as int),
            decreases n - i,
        {
            out.push(self.entries.key_at(i).clone());
            assert(text::texts(out@) =~= keys.take(i + 1));
            i = i + 1;
        }
        assert(keys.take(keys.len() as int) =~= keys);
        out
    }
}

/// The models of a category are tried from the primary one on, then the others in the
/// order of the registry; an unknown category has none.
pub proof fn law_the_primary_model_goes_first(
    reg: Map<Seq<char>, CapabilityEntry>,
    category: Seq<char>,
    i: int,
)
    ensures
        !reg.dom().contains(category) ==> candidates_of(reg, category).len() == 0,
        reg.dom().contains(category) ==> {
            let c = candidates_of(reg, category);
            let e = reg[category];
            &&& c.len() == 1 + e.fallback@.len()
            &&& c[0] == e.primary@
            &&& 0 <= i < e.fallback@.len() ==> c[i + 1] == e.fallback@[i]@
        },
        manual_only(reg, category) <==> reg.dom().contains(category) && reg[category].manual_only,
{
}

} // verus!
