//! What each model costs: memory, loading time, whether it stays resident, and
//! the settings that the registry file keeps for it.

use crate::keyed::Keyed;
use crate::text;
use vstd::prelude::*;

verus! {

broadcast use text::texts_push;

/// Where a model is placed when it is loaded.
#[derive(Debug, Clone, Copy, PartialEq, Eq, Structural)]
pub enum PreferredDevice {
    Gpu,
    Cpu,
    Hybrid,
}

impl Default for PreferredDevice {
    fn default() -> (r: Self)
        ensures
            r == PreferredDevice::Gpu,
    {
        PreferredDevice::Gpu
    }
}

/// A sampling temperature: a single-precision number, held by its IEEE 754
/// bit pattern.
#[derive(Debug, Clone, Copy, PartialEq, Eq, Structural)]
pub struct Temperature {
    pub bits: u32,
}

/// The bit pattern of 2.0, the largest temperature that is accepted.
pub const TEMPERATURE_MAX_BITS: u32 = 0x4000_0000;

/// The bit pattern of the negative zero, which equals the smallest accepted
/// temperature.
pub const NEGATIVE_ZERO_BITS: u32 = 0x8000_0000;

impl Temperature {
    /// Whether the number lies from 0.0 to 2.0. The patterns of non-negative
    /// numbers are ordered as the numbers are, and the patterns of "not a
    /// number" lie above all of them.
    pub open spec fn in_range(self) -> bool {
        self.bits <= TEMPERATURE_MAX_BITS || self.bits == NEGATIVE_ZERO_BITS
    }
}

/// What is said of a temperature outside the range.
pub open spec fn temperature_error(shown: Seq<char>) -> Seq<char> {
    "temperature должна быть числом в диапазоне 0–2 (или null, чтобы снять настройку); получено "@
        + shown
}

/// Accepts a temperature from 0.0 to 2.0, and the absence of one. `shown` is
/// the number as it is to be named in the refusal.
pub fn validate_temperature(value: Option<Temperature>, shown: &str) -> (r: Result<(), String>)
    ensures
        r is Ok <==> (value matches Some(t) ==> t.in_range()),
        r matches Err(e) ==> e@ == temperature_error(shown@),
{
    match value {
        None => Ok(()),
        Some(t) => {
            if t.bits <= TEMPERATURE_MAX_BITS || t.bits == NEGATIVE_ZERO_BITS {
                Ok(())
            } else {
                let mut e = String::from_str(
                    "temperature должна быть числом в диапазоне 0–2 (или null, чтобы снять настройку); получено ",
                );
                e.append(shown);
                Err(e)
            }
        },
    }
}

/// What the registry says of one model.
#[derive(Debug, Clone)]
pub struct ResourceEntry {
    /// Memory the loaded model takes, in megabytes.
    pub vram_mb: u32,
    /// System memory taken by layers kept off the device, in megabytes. Shown,
    /// not reckoned with.
    pub ram_offload_mb: u32,
    /// How long a cold load takes, in seconds.
    pub load_seconds: u32,
    /// The model is never evicted.
    pub always_loaded: bool,
    /// Where the model is placed.
    pub preferred_device: PreferredDevice,
    /// The provider's name for the model, where it differs from the label.
    pub lm_studio_key: Option<String>,
    /// Context length of the loaded model.
    pub context_length: Option<u32>,
    /// The longest context the model supports.
    pub max_context_length: Option<u32>,
    /// Sampling temperature; the provider's default where there is none.
    pub temperature: Option<Temperature>,
    /// The model's file, for a backend that loads files itself.
    pub path: Option<String>,
}

/// The memory of a model; an unknown one takes none.
pub open spec fn vram_of(models: Map<Seq<char>, ResourceEntry>, name: Seq<char>) -> nat {
    if models.dom().contains(name) {
        models[name].vram_mb as nat
    } else {
        0
    }
}

/// Whether a model is resident; an unknown one is not.
pub open spec fn is_resident(models: Map<Seq<char>, ResourceEntry>, name: Seq<char>) -> bool {
    models.dom().contains(name) && models[name].always_loaded
}

/// The memory of several models together.
pub open spec fn total_vram(models: Map<Seq<char>, ResourceEntry>, names: Seq<Seq<char>>) -> nat
    decreases names.len(),
{
    if names.len() == 0 {
        0
    } else {
        total_vram(models, names.drop_last()) + vram_of(models, names.last())
    }
}

/// The memory of the resident ones among several models.
pub open spec fn resident_vram(models: Map<Seq<char>, ResourceEntry>, names: Seq<Seq<char>>) -> nat
    decreases names.len(),
{
    if names.len() == 0 {
        0
    } else {
        resident_vram(models, names.drop_last()) + if is_resident(models, names.last()) {
            vram_of(models, names.last())
        } else {
            0
        }
    }
}

/// The resident ones among several models, in their order.
pub open spec fn residents(
    models: Map<Seq<char>, ResourceEntry>,
    names: Seq<Seq<char>>,
) -> Seq<Seq<char>>
    decreases names.len(),
{
    if names.len() == 0 {
        Seq::empty()
    } else if is_resident(models, names.last()) {
        residents(models, names.drop_last()).push(names.last())
    } else {
        residents(models, names.drop_last())
    }
}

/// Taking one name out takes its memory out of the sum.
pub proof fn lemma_total_remove(
    models: Map<Seq<char>, ResourceEntry>,
    names: Seq<Seq<char>>,
    i: int,
)
    requires
        0 <= i < names.len(),
    ensures
        total_vram(models, names) == total_vram(models, names.remove(i)) + vram_of(
            models,
            names[i],
        ),
    decreases names.len(),
{
    let last = names.len() - 1;
    if i == last {
        assert(names.remove(i) =~= names.drop_last());
    } else {
        lemma_total_remove(models, names.drop_last(), i);
        assert(names.remove(i).drop_last() =~= names.drop_last().remove(i));
        assert(names.remove(i).last() == names.last());
    }
}

/// Names without repetition take no more memory than all the names they come
/// from; names that come from elsewhere and are unknown take none.
pub proof fn lemma_total_subset(
    models: Map<Seq<char>, ResourceEntry>,
    sub: Seq<Seq<char>>,
    all: Seq<Seq<char>>,
)
    requires
        sub.no_duplicates(),
        forall|i: int|
            0 <= i < sub.len() && models.dom().contains(#[trigger] sub[i]) ==> all.contains(sub[i]),
    ensures
        total_vram(models, sub) <= total_vram(models, all),
    decreases sub.len(),
{
    if sub.len() > 0 {
        let x = sub.last();
        let rest = sub.drop_last();
        if models.dom().contains(x) {
            assert(all.contains(sub[sub.len() - 1]));
            let k = all.index_of(x);
            let fewer = all.remove(k);
            lemma_total_remove(models, all, k);
            assert forall|i: int|
                0 <= i < rest.len() && models.dom().contains(#[trigger] rest[i]) implies fewer.contains(
                rest[i],
            ) by {
                assert(rest[i] == sub[i]);
                let j = all.index_of(rest[i]);
                assert(all[j] == rest[i]);
                let j2: int = if j < k { j } else { j - 1 };
                assert(fewer[j2] == rest[i]);
            }
            lemma_total_subset(models, rest, fewer);
        } else {
            assert forall|i: int|
                0 <= i < rest.len() && models.dom().contains(#[trigger] rest[i]) implies all.contains(
                rest[i],
            ) by {
                assert(rest[i] == sub[i]);
            }
            lemma_total_subset(models, rest, all);
        }
    }
}

/// The residents take no more memory than all models.
pub proof fn lemma_residents_part_of_all(
    models: Map<Seq<char>, ResourceEntry>,
    names: Seq<Seq<char>>,
)
    ensures
        resident_vram(models, names) <= total_vram(models, names),
    decreases names.len(),
{
    if names.len() > 0 {
        lemma_residents_part_of_all(models, names.drop_last());
    }
}

/// A resident model's memory is part of the residents' memory.
pub proof fn lemma_resident_counted(
    models: Map<Seq<char>, ResourceEntry>,
    names: Seq<Seq<char>>,
    i: int,
)
    requires
        0 <= i < names.len(),
        is_resident(models, names[i]),
    ensures
        vram_of(models, names[i]) <= resident_vram(models, names),
    decreases names.len(),
{
    if i < names.len() - 1 {
        lemma_resident_counted(models, names.drop_last(), i);
    }
}

/// The temperature in force: the one set at run time where there is one, else
/// the one of the registry.
pub open spec fn temperature_in_force(
    models: Map<Seq<char>, ResourceEntry>,
    overrides: Map<Seq<char>, Option<Temperature>>,
    model: Seq<char>,
) -> Option<Temperature> {
    if overrides.dom().contains(model) {
        overrides[model]
    } else if models.dom().contains(model) {
        models[model].temperature
    } else {
        None
    }
}

/// The provider's name for a model: its key where it has one, else the label.
pub open spec fn key_of(models: Map<Seq<char>, ResourceEntry>, label: Seq<char>) -> Seq<char> {
    if models.dom().contains(label) && models[label].lm_studio_key is Some {
        models[label].lm_studio_key->0@
    } else {
        label
    }
}

/// The registry of models, with the temperatures set since it was read.
pub struct ResourceRegistry {
    entries: Keyed<ResourceEntry>,
    overrides: Keyed<Option<Temperature>>,
}

impl View for ResourceRegistry {
    type V = Map<Seq<char>, ResourceEntry>;

    closed spec fn view(&self) -> Map<Seq<char>, ResourceEntry> {
        self.entries@
    }
}

impl ResourceRegistry {
    /// The labels of all models, in the order in which they came.
    pub closed spec fn names(&self) -> Seq<Seq<char>> {
        self.entries.keys()
    }

    /// The temperatures set at run time.
    pub closed spec fn overrides(&self) -> Map<Seq<char>, Option<Temperature>> {
        self.overrides@
    }

    /// The memory of all models together can be written in 32 bits.
    pub open spec fn sizes_fit(&self) -> bool {
        &&& total_vram(self@, self.names()) <= u32::MAX
        &&& self.names().no_duplicates()
        &&& forall|k: Seq<char>|
            #![trigger self@.dom().contains(k)]
            #![trigger self.names().contains(k)]
            self@.dom().contains(k) <==> self.names().contains(k)
    }

    /// A registry of the given entries, with no temperature set yet.
    pub fn new(entries: Keyed<ResourceEntry>) -> (r: Self)
        ensures
            r@ == entries@,
            r.names() == entries.keys(),
            r.overrides() == Map::<Seq<char>, Option<Temperature>>::empty(),
    {
        ResourceRegistry { entries, overrides: Keyed::new() }
    }

    /// All models with what the registry says of them.
    pub fn all(&self) -> (r: &Keyed<ResourceEntry>)
        ensures
            r@ == self@,
            r.keys() == self.names(),
    {
        &self.entries
    }

    /// What the registry says of a model, where it knows it.
    pub fn get(&self, model_name: &str) -> (r: Option<&ResourceEntry>)
        ensures
            r is Some <==> self@.dom().contains(model_name@),
            r matches Some(entry) ==> *entry == self@[model_name@],
    {
        self.entries.get(model_name)
    }

    /// Whether the memory of all models together can be written in 32 bits.
    pub fn check_sizes(&self) -> (r: bool)
        ensures
            r == self.sizes_fit(),
    {
        let n: usize = self.entries.len();
        let ghost names = self.names();
        let mut sum: u32 = 0;
        let mut i: usize = 0;
        assert(names.take(0) =~= Seq::<Seq<char>>::empty());
        while i < n
            invariant
                i <= n,
                n == names.len(),
                names == self.names(),
                names == self.entries.keys(),
                sum == total_vram(self@, names.take(i as int)),
            decreases n - i,
        {
            let v: u32 = self.entries.value_at(i).vram_mb;
            assert(names.take(i + 1).drop_last() =~= names.take(i as int));
            assert(names.take(i + 1).last() == names[i as int]);
            if v > u32::MAX - sum {
                proof {
                    lemma_total_prefix(self@, names, i + 1);
                }
                return false;
            }
            sum = sum + v;
            i = i + 1;
        }
        assert(names.take(n as int) =~= names);
        true
    }

    /// The temperature of a model, as set at run time or as the registry has
    /// it. `None` means that none is sent to the provider.
    pub fn temperature_for(&self, model: &str) -> (r: Option<Temperature>)
        ensures
            r == temperature_in_force(self@, self.overrides(), model@),
    {
        match self.overrides.get(model) {
            Some(value) => *value,
            None => match self.entries.get(model) {
                Some(entry) => entry.temperature,
                None => None,
            },
        }
    }

    /// What becomes of the registry file's text when a temperature is set:
    /// the new text, or why it is refused. `shown` is the number as it is to be
    /// written. The registry itself does not change before the text is stored:
    /// see `remember_temperature`.
    pub fn set_temperature(
        &self,
        model: &str,
        value: Option<Temperature>,
        shown: &str,
        raw: &str,
    ) -> (r: Result<String, String>)
        ensures
            !self@.dom().contains(model@) ==> (r matches Err(e) && e@ == "модель '"@ + model@
                + "' отсутствует в Resource Registry"@),
            self@.dom().contains(model@) && (value matches Some(t) && !t.in_range()) ==> (r matches Err(
                e,
            ) && e@ == temperature_error(shown@)),
            self@.dom().contains(model@) && (value matches Some(t) ==> t.in_range())
                && block_start(text::lines(raw@), header_of(model@), 0) == text::lines(raw@).len()
                ==> (r matches Err(e) && e@ == no_block_error(model@)),
            self@.dom().contains(model@) && (value matches Some(t) ==> t.in_range())
                && block_start(text::lines(raw@), header_of(model@), 0) < text::lines(raw@).len()
                ==> (r matches Ok(t) && t@ == with_temperature(
                raw@,
                model@,
                if value is Some {
                    Some(shown@)
                } else {
                    None
                },
            )),
    {
        if !self.entries.contains(model) {
            let mut e = String::from_str("модель '");
            e.append(model);
            e.append("' отсутствует в Resource Registry");
            return Err(e);
        }
        match validate_temperature(value, shown) {
            Err(e) => Err(e),
            Ok(_) => {
                let rendered: Option<&str> = match value {
                    Some(_) => Some(shown),
                    None => None,
                };
                proof {
                    lemma_block_start(text::lines(raw@), header_of(model@), 0);
                }
                replace_temperature_line(raw, model, rendered)
            },
        }
    }

    /// Makes a stored temperature the one in force.
    pub fn remember_temperature(&mut self, model: &str, value: Option<Temperature>)
        ensures
            final(self)@ == old(self)@,
            final(self).names() == old(self).names(),
            final(self).overrides() == old(self).overrides().insert(model@, value),
    {
        self.overrides.insert(model.to_owned(), value);
    }

    /// The provider's name for a model.
    pub fn provider_key(&self, label: &str) -> (r: String)
        ensures
            r@ == key_of(self@, label@),
    {
        match self.entries.get(label) {
            Some(entry) => match &entry.lm_studio_key {
                Some(key) => key.clone(),
                None => label.to_owned(),
            },
            None => label.to_owned(),
        }
    }

    /// The memory that the resident models take together.
    pub fn always_loaded_vram_mb(&self) -> (r: u32)
        requires
            resident_vram(self@, self.names()) <= u32::MAX,
        ensures
            r == resident_vram(self@, self.names()),
    {
        let n: usize = self.entries.len();
        let ghost names = self.names();
        let mut sum: u32 = 0;
        let mut i: usize = 0;
        assert(names.take(0) =~= Seq::<Seq<char>>::empty());
        while i < n
            invariant
                i <= n,
                n == names.len(),
                names == self.names(),
                names == self.entries.keys(),
                resident_vram(self@, names) <= u32::MAX,
                sum == resident_vram(self@, names.take(i as int)),
            decreases n - i,
        {
            let entry = self.entries.value_at(i);
            assert(names.take(i + 1).drop_last() =~= names.take(i as int));
            assert(names.take(i + 1).last() == names[i as int]);
            proof {
                lemma_resident_prefix(self@, names, i + 1);
            }
            if entry.always_loaded {
                sum = sum + entry.vram_mb;
            }
            i = i + 1;
        }
        assert(names.take(n as int) =~= names);
        sum
    }

    /// The labels of the resident models.
    pub fn always_loaded_models(&self) -> (r: Vec<String>)
        ensures
            text::texts(r@) == residents(self@, self.names()),
    {
        let n: usize = self.entries.len();
        let ghost names = self.names();
        let mut out: Vec<String> = Vec::new();
        let mut i: usize = 0;
        assert(names.take(0) =~= Seq::<Seq<char>>::empty());
        assert(text::texts(out@) =~= Seq::<Seq<char>>::empty());
        while i < n
            invariant
                i <= n,
                n == names.len(),
                names == self.names(),
                names == self.entries.keys(),
                text::texts(out@) == residents(self@, names.take(i as int)),
            decreases n - i,
        {
            assert(names.take(i + 1).drop_last() =~= names.take(i as int));
            assert(names.take(i + 1).last() == names[i as int]);
            let resident: bool = self.entries.value_at(i).always_loaded;
            if resident {
                out.push(self.entries.key_at(i).clone());
            }
            i = i + 1;
        }
        assert(names.take(n as int) =~= names);
        out
    }
}

/// A prefix of the names takes no more memory than all of them.
pub proof fn lemma_total_prefix(
    models: Map<Seq<char>, ResourceEntry>,
    names: Seq<Seq<char>>,
    n: int,
)
    requires
        0 <= n <= names.len(),
    ensures
        total_vram(models, names.take(n)) <= total_vram(models, names),
    decreases names.len() - n,
{
    if n < names.len() {
        lemma_total_prefix(models, names, n + 1);
        assert(names.take(n + 1).drop_last() =~= names.take(n));
    } else {
        assert(names.take(n) =~= names);
    }
}

/// A prefix of the names has no more resident memory than all of them.
pub proof fn lemma_resident_prefix(
    models: Map<Seq<char>, ResourceEntry>,
    names: Seq<Seq<char>>,
    n: int,
)
    requires
        0 <= n <= names.len(),
    ensures
        resident_vram(models, names.take(n)) <= resident_vram(models, names),
    decreases names.len() - n,
{
    if n < names.len() {
        lemma_resident_prefix(models, names, n + 1);
        assert(names.take(n + 1).drop_last() =~= names.take(n));
    } else {
        assert(names.take(n) =~= names);
    }
}

/// The line that opens the block of a model.
pub open spec fn header_of(model: Seq<char>) -> Seq<char> {
    model + ":"@
}

/// What is said of a model without a block in the file.
pub open spec fn no_block_error(model: Seq<char>) -> Seq<char> {
    "блок модели '"@ + model + "' не найден в YAML"@
}

/// The first line from a position on that begins with a header; the number of
/// lines where there is none.
pub open spec fn block_start(lines: Seq<Seq<char>>, header: Seq<char>, from: int) -> int
    decreases lines.len() - from,
{
    if from >= lines.len() {
        lines.len() as int
    } else if header.is_prefix_of(lines[from]) {
        from
    } else {
        block_start(lines, header, from + 1)
    }
}

/// Whether a line stands outside every block that began before it: it is not
/// blank and not indented.
pub open spec fn leaves_block(line: Seq<char>) -> bool {
    !(line.len() > 0 && line[0] == ' ') && !text::is_blank(line)
}

/// The first line from a position on that leaves the block; the number of lines
/// where there is none.
pub open spec fn block_end(lines: Seq<Seq<char>>, from: int) -> int
    decreases lines.len() - from,
{
    if from >= lines.len() {
        lines.len() as int
    } else if leaves_block(lines[from]) {
        from
    } else {
        block_end(lines, from + 1)
    }
}

/// Whether a line sets the temperature.
pub open spec fn sets_temperature(line: Seq<char>) -> bool {
    "temperature:"@.is_prefix_of(text::trim_start(line))
}

/// The first line from `from` up to `to` that sets the temperature; `to` where
/// there is none.
pub open spec fn setting_line(lines: Seq<Seq<char>>, from: int, to: int) -> int
    decreases to - from,
{
    if from >= to {
        to
    } else if sets_temperature(lines[from]) {
        from
    } else {
        setting_line(lines, from + 1, to)
    }
}

/// The position behind the last line from `from` up to `to` that is not blank;
/// `from` where all are blank.
pub open spec fn after_content(lines: Seq<Seq<char>>, from: int, to: int) -> int
    decreases to - from,
{
    if to <= from {
        from
    } else if !text::is_blank(lines[to - 1]) {
        to
    } else {
        after_content(lines, from, to - 1)
    }
}

/// The line that sets a temperature, or takes it away.
pub open spec fn setting(shown: Option<Seq<char>>) -> Seq<char> {
    match shown {
        Some(v) => "  temperature: "@ + v,
        None => "  temperature: null"@,
    }
}

/// The lines of the file after a temperature was set in the block that begins
/// at `start`: the setting takes the place of the one that was there, or
/// follows the last line of the block that holds anything.
pub open spec fn edited(lines: Seq<Seq<char>>, start: int, line: Seq<char>) -> Seq<Seq<char>> {
    let end = block_end(lines, start + 1);
    let at = setting_line(lines, start, end);
    if at < end {
        lines.update(at, line)
    } else {
        lines.insert(after_content(lines, start, end), line)
    }
}

/// The text of the file after a temperature was set for a model that has a
/// block in it.
pub open spec fn with_temperature(
    raw: Seq<char>,
    model: Seq<char>,
    shown: Option<Seq<char>>,
) -> Seq<char> {
    let lines = text::lines(raw);
    text::joined(edited(lines, block_start(lines, header_of(model), 0), setting(shown)), "\n"@) + "\n"@
}

pub proof fn lemma_block_start(lines: Seq<Seq<char>>, header: Seq<char>, from: int)
    requires
        0 <= from <= lines.len(),
    ensures
        from <= block_start(lines, header, from) <= lines.len(),
        block_start(lines, header, from) < lines.len() ==> header.is_prefix_of(
            lines[block_start(lines, header, from)],
        ),
        forall|i: int|
            from <= i < block_start(lines, header, from) ==> !header.is_prefix_of(
                #[trigger] lines[i],
            ),
    decreases lines.len() - from,
{
    if from < lines.len() && !header.is_prefix_of(lines[from]) {
        lemma_block_start(lines, header, from + 1);
    }
}

pub proof fn lemma_block_end(lines: Seq<Seq<char>>, from: int)
    requires
        0 <= from <= lines.len(),
    ensures
        from <= block_end(lines, from) <= lines.len(),
        block_end(lines, from) < lines.len() ==> leaves_block(lines[block_end(lines, from)]),
        forall|i: int| from <= i < block_end(lines, from) ==> !leaves_block(#[trigger] lines[i]),
    decreases lines.len() - from,
{
    if from < lines.len() && !leaves_block(lines[from]) {
        lemma_block_end(lines, from + 1);
    }
}

pub proof fn lemma_setting_line(lines: Seq<Seq<char>>, from: int, to: int)
    requires
        0 <= from <= to <= lines.len(),
    ensures
        from <= setting_line(lines, from, to) <= to,
        setting_line(lines, from, to) < to ==> sets_temperature(
            lines[setting_line(lines, from, to)],
        ),
        forall|i: int|
            from <= i < setting_line(lines, from, to) ==> !sets_temperature(#[trigger] lines[i]),
    decreases to - from,
{
    if from < to && !sets_temperature(lines[from]) {
        lemma_setting_line(lines, from + 1, to);
    }
}

pub proof fn lemma_after_content(lines: Seq<Seq<char>>, from: int, to: int)
    requires
        0 <= from <= to <= lines.len(),
    ensures
        from <= after_content(lines, from, to) <= to,
        forall|i: int| after_content(lines, from, to) <= i < to ==> text::is_blank(
            #[trigger] lines[i],
        ),
    decreases to - from,
{
    if from < to && text::is_blank(lines[to - 1]) {
        lemma_after_content(lines, from, to - 1);
    }
}

/// Whether a line sets the temperature.
fn line_sets_temperature(line: &String) -> (r: bool)
    ensures
        r == sets_temperature(line@),
{
    let t = text::trim_front(line.as_str());
    text::starts_with(t.as_str(), "temperature:")
}

/// Whether a line leaves the block.
fn line_leaves_block(line: &String) -> (r: bool)
    ensures
        r == leaves_block(line@),
{
    proof {
        reveal_strlit(" ");
        if " "@.is_prefix_of(line@) {
            assert(line@[0] == line@.subrange(0, 1)[0]);
        } else if line@.len() > 0 && line@[0] == ' ' {
            assert(" "@ =~= line@.subrange(0, 1));
        }
    }
    !text::starts_with(line.as_str(), " ") && !text::blank(line.as_str())
}

/// Sets the temperature of a model in the text of the registry file, or says
/// that the model has no block there. Every other line stays as it is, comments
/// included.
pub fn replace_temperature_line(raw: &str, model: &str, shown: Option<&str>) -> (r: Result<
    String,
    String,
>)
    ensures
        r is Ok <==> block_start(text::lines(raw@), header_of(model@), 0) < text::lines(raw@).len(),
        r matches Ok(t) ==> t@ == with_temperature(
            raw@,
            model@,
            match shown {
                Some(v) => Some(v@),
                None => None,
            },
        ),
        r matches Err(e) ==> e@ == no_block_error(model@),
{
    let mut rendered = String::from_str("  temperature: ");
    match shown {
        Some(v) => {
            rendered.append(v);
        },
        None => {
            rendered = String::from_str("  temperature: null");
        },
    }
    let ghost line = rendered@;
    let mut out = text::split_lines(raw);
    let ghost lines = text::lines(raw@);
    let mut header = model.to_owned();
    header.append(":");

    let mut start: usize = 0;
    while start < out.len() && !text::starts_with(out[start].as_str(), header.as_str())
        invariant
            start <= out@.len(),
            lines == text::texts(out@),
            header@ == header_of(model@),
            block_start(lines, header@, start as int) == block_start(lines, header@, 0),
        decreases out@.len() - start,
    {
        assert(lines[start as int] == out@[start as int]@);
        start = start + 1;
    }
    if start == out.len() {
        let mut e = String::from_str("блок модели '");
        e.append(model);
        e.append("' не найден в YAML");
        return Err(e);
    }
    assert(lines[start as int] == out@[start as int]@);
    assert(block_start(lines, header@, 0) == start);

    let mut end: usize = start + 1;
    while end < out.len() && !line_leaves_block(&out[end])
        invariant
            start < end <= out@.len(),
            lines == text::texts(out@),
            block_end(lines, end as int) == block_end(lines, start + 1),
        decreases out@.len() - end,
    {
        assert(lines[end as int] == out@[end as int]@);
        end = end + 1;
    }
    assert(end < out@.len() ==> lines[end as int] == out@[end as int]@);
    assert(block_end(lines, start + 1) == end);

    let mut at: usize = start;
    while at < end && !line_sets_temperature(&out[at])
        invariant
            start <= at <= end <= out@.len(),
            lines == text::texts(out@),
            setting_line(lines, at as int, end as int) == setting_line(
                lines,
                start as int,
                end as int,
            ),
        decreases end - at,
    {
        assert(lines[at as int] == out@[at as int]@);
        at = at + 1;
    }
    assert(at < end ==> lines[at as int] == out@[at as int]@);
    assert(setting_line(lines, start as int, end as int) == at);

    if at < end {
        out.set(at, rendered);
        assert(text::texts(out@) =~= lines.update(at as int, line));
    } else {
        let mut to: usize = end;
        while to > start && text::blank(out[to - 1].as_str())
            invariant
                start <= to <= end <= out@.len(),
                lines == text::texts(out@),
                after_content(lines, start as int, to as int) == after_content(
                    lines,
                    start as int,
                    end as int,
                ),
            decreases to,
        {
            assert(lines[to - 1] == out@[to - 1]@);
            to = to - 1;
        }
        assert(to > start ==> lines[to - 1] == out@[to - 1]@);
        assert(after_content(lines, start as int, end as int) == to);
        out.insert(to, rendered);
        assert(text::texts(out@) =~= lines.insert(to as int, line));
    }
    let mut result = text::join(&out, "\n");
    result.append("\n");
    Ok(result)
}

proof fn lemma_block_start_is(lines: Seq<Seq<char>>, header: Seq<char>, from: int, at: int)
    requires
        0 <= from <= at < lines.len(),
        header.is_prefix_of(lines[at]),
        forall|i: int| from <= i < at ==> !header.is_prefix_of(#[trigger] lines[i]),
    ensures
        block_start(lines, header, from) == at,
    decreases at - from,
{
    if from < at {
        assert(!header.is_prefix_of(lines[from]));
        lemma_block_start_is(lines, header, from + 1, at);
    }
}

proof fn lemma_block_end_is(lines: Seq<Seq<char>>, from: int, at: int)
    requires
        0 <= from <= at <= lines.len(),
        at < lines.len() ==> leaves_block(lines[at]),
        forall|i: int| from <= i < at ==> !leaves_block(#[trigger] lines[i]),
    ensures
        block_end(lines, from) == at,
    decreases at - from,
{
    if from < at {
        assert(!leaves_block(lines[from]));
        lemma_block_end_is(lines, from + 1, at);
    }
}

proof fn lemma_setting_line_is(lines: Seq<Seq<char>>, from: int, to: int, at: int)
    requires
        0 <= from <= at < to <= lines.len(),
        sets_temperature(lines[at]),
        forall|i: int| from <= i < at ==> !sets_temperature(#[trigger] lines[i]),
    ensures
        setting_line(lines, from, to) == at,
    decreases at - from,
{
    if from < at {
        assert(!sets_temperature(lines[from]));
        lemma_setting_line_is(lines, from + 1, to, at);
    }
}

/// A line that sets a temperature is recognised as one, and stays in its block.
proof fn lemma_setting_is_recognised(shown: Option<Seq<char>>)
    ensures
        sets_temperature(setting(shown)),
        !leaves_block(setting(shown)),
{
    reveal_strlit("  temperature: ");
    reveal_strlit("  temperature: null");
    reveal_strlit("temperature:");
    let s = setting(shown);
    assert(s[0] == ' ' && s[1] == ' ' && s[2] == 't');
    assert(s.skip(1)[0] == ' ');
    assert(s.skip(1).skip(1) =~= s.skip(2));
    assert(s.skip(2)[0] == 't');
    assert(text::trim_start(s) == text::trim_start(s.skip(1)));
    assert(text::trim_start(s.skip(1)) == text::trim_start(s.skip(2)));
    assert(text::trim_start(s.skip(2)) == s.skip(2));
    assert("temperature:"@ =~= s.skip(2).subrange(0, 12));
}

/// Setting a temperature and then another leaves the file as if only the
/// second had been set: the setting is found again where it was put, and
/// nothing else has moved. It takes a file whose lines do not end with a
/// carriage return, a header that is not itself a setting, and values that can
/// be written in one line.
pub proof fn law_last_temperature_wins(
    raw: Seq<char>,
    model: Seq<char>,
    first: Option<Seq<char>>,
    second: Option<Seq<char>>,
)
    requires
        block_start(text::lines(raw), header_of(model), 0) < text::lines(raw).len(),
        !sets_temperature(text::lines(raw)[block_start(text::lines(raw), header_of(model), 0)]),
        forall|i: int|
            0 <= i < text::lines(raw).len() && (#[trigger] text::lines(raw)[i]).len() > 0
                ==> text::lines(raw)[i].last() != '\r',
        first matches Some(v) ==> text::plain_line(v),
    ensures
        block_start(
            text::lines(with_temperature(raw, model, first)),
            header_of(model),
            0,
        ) == block_start(text::lines(raw), header_of(model), 0),
        with_temperature(with_temperature(raw, model, first), model, second) == with_temperature(
            raw,
            model,
            second,
        ),
{
    let before = text::lines(raw);
    let header = header_of(model);
    let start = block_start(before, header, 0);
    let end = block_end(before, start + 1);
    let at = setting_line(before, start, end);
    let s1 = setting(first);
    let s2 = setting(second);
    lemma_block_start(before, header, 0);
    lemma_block_end(before, start + 1);
    lemma_setting_line(before, start, end);
    lemma_after_content(before, start, end);
    lemma_setting_is_recognised(first);
    text::lemma_lines_hold_no_feed(raw);
    let after = edited(before, start, s1);
    assert(text::plain_line(s1)) by {
        reveal_strlit("  temperature: ");
        reveal_strlit("  temperature: null");
    }
    assert(!text::is_blank(before[start])) by {
        reveal_strlit(":");
        let h = before[start];
        assert(h.subrange(0, header.len() as int)[model.len() as int] == ':');
        assert(!text::is_space(h[model.len() as int]));
    }
    let put = after_content(before, start, end);
    assert(start < put) by {
        if put == start {
            assert(text::is_blank(before[start]));
        }
    }
    assert forall|i: int| 0 <= i < after.len() implies text::plain_line(#[trigger] after[i]) by {
        if at < end {
            if i != at {
                assert(after[i] == before[i]);
                assert forall|j: int| 0 <= j < after[i].len() implies #[trigger] after[i][j] != '\n' by {
                    assert(before[i][j] != '\n');
                }
            }
        } else if i < put {
            assert(after[i] == before[i]);
            assert forall|j: int| 0 <= j < after[i].len() implies #[trigger] after[i][j] != '\n' by {
                assert(before[i][j] != '\n');
            }
        } else if i > put {
            assert(after[i] == before[i - 1]);
            assert forall|j: int| 0 <= j < after[i].len() implies #[trigger] after[i][j] != '\n' by {
                assert(before[i - 1][j] != '\n');
            }
        }
    }
    text::lemma_lines_of_joined(after);
    assert(text::lines(with_temperature(raw, model, first)) == after);
    if at < end {
        assert(at > start);
        assert forall|i: int| 0 <= i < start implies !header.is_prefix_of(#[trigger] after[i]) by {
            assert(after[i] == before[i]);
        }
        lemma_block_start_is(after, header, 0, start);
        assert forall|i: int| start + 1 <= i < end implies !leaves_block(#[trigger] after[i]) by {
            assert(i != at ==> after[i] == before[i]);
        }
        lemma_block_end_is(after, start + 1, end);
        assert forall|i: int| start <= i < at implies !sets_temperature(#[trigger] after[i]) by {
            assert(after[i] == before[i]);
        }
        lemma_setting_line_is(after, start, end, at);
        assert(edited(after, start, s2) =~= edited(before, start, s2));
    } else {
        assert forall|i: int| 0 <= i < start implies !header.is_prefix_of(#[trigger] after[i]) by {
            assert(after[i] == before[i]);
        }
        assert(after[start] == before[start]);
        lemma_block_start_is(after, header, 0, start);
        assert forall|i: int| start + 1 <= i < end + 1 implies !leaves_block(#[trigger] after[i]) by {
            if i < put {
                assert(after[i] == before[i]);
            } else if i > put {
                assert(after[i] == before[i - 1]);
            }
        }
        if end < before.len() {
            assert(after[end + 1] == before[end]);
        }
        lemma_block_end_is(after, start + 1, end + 1);
        assert forall|i: int| start <= i < put implies !sets_temperature(#[trigger] after[i]) by {
            assert(after[i] == before[i]);
        }
        assert(after[put] == s1);
        lemma_setting_line_is(after, start, end + 1, put);
        assert(edited(after, start, s2) =~= edited(before, start, s2));
    }
}

/// Whether a text differs from another in one line of a block: the line at a
/// position that sets the temperature is replaced, or, where no line of the block
/// sets one, a line is added at that position.
pub open spec fn one_line_set(
    before: Seq<Seq<char>>,
    after: Seq<Seq<char>>,
    start: int,
    end: int,
    at: int,
    line: Seq<char>,
) -> bool {
    ||| start <= at < end && sets_temperature(before[at]) && after == before.update(at, line)
    ||| start <= at <= end && after == before.insert(at, line) && forall|i: int|
        start <= i < end ==> !sets_temperature(#[trigger] before[i])
}

/// Setting a temperature keeps every other line of the file, in its order: the
/// new text has the old lines with one replaced inside the model's block, or
/// with one added inside it.
pub proof fn law_other_lines_stay(
    lines: Seq<Seq<char>>,
    start: int,
    line: Seq<char>,
)
    requires
        0 <= start < lines.len(),
    ensures
        exists|at: int| #[trigger]
            one_line_set(
                lines,
                edited(lines, start, line),
                start,
                block_end(lines, start + 1),
                at,
                line,
            ),
{
    let end = block_end(lines, start + 1);
    lemma_block_end(lines, start + 1);
    lemma_setting_line(lines, start, end);
    lemma_after_content(lines, start, end);
    let at = setting_line(lines, start, end);
    if at < end {
        assert(one_line_set(lines, edited(lines, start, line), start, end, at, line));
    } else {
        let put = after_content(lines, start, end);
        assert(one_line_set(lines, edited(lines, start, line), start, end, put, line));
    }
}

/// Every model counts once with its memory, and one that the registry does not know
/// with none; residents count as what they are.
pub proof fn law_memory_is_summed_up(
    models: Map<Seq<char>, ResourceEntry>,
    names: Seq<Seq<char>>,
    next: Seq<char>,
)
    ensures
        total_vram(models, Seq::empty()) == 0,
        total_vram(models, names.push(next)) == total_vram(models, names) + if models.dom().contains(
            next,
        ) {
            models[next].vram_mb as nat
        } else {
            0
        },
        resident_vram(models, Seq::empty()) == 0,
        resident_vram(models, names.push(next)) == resident_vram(models, names)
            + if models.dom().contains(next) && models[next].always_loaded {
            models[next].vram_mb as nat
        } else {
            0
        },
{
    assert(names.push(next).drop_last() =~= names);
}

/// The residents are the models that are to stay loaded, all of them, in the order of
/// the registry.
pub proof fn law_residents_are_those_that_stay(
    models: Map<Seq<char>, ResourceEntry>,
    names: Seq<Seq<char>>,
)
    ensures
        residents(models, names) == names.filter(
            |n: Seq<char>| models.dom().contains(n) && models[n].always_loaded,
        ),
    decreases names.len(),
{
    reveal(Seq::filter);
    if names.len() > 0 {
        law_residents_are_those_that_stay(models, names.drop_last());
    } else {
        assert(names =~= Seq::<Seq<char>>::empty());
    }
}

/// A temperature that was set is the one in force for its model and for no other, also
/// where it was taken away; a model of which none was set has that of the registry.
pub proof fn law_a_set_temperature_is_in_force(
    models: Map<Seq<char>, ResourceEntry>,
    overrides: Map<Seq<char>, Option<Temperature>>,
    model: Seq<char>,
    value: Option<Temperature>,
    other: Seq<char>,
)
    ensures
        temperature_in_force(models, overrides.insert(model, value), model) == value,
        other != model ==> temperature_in_force(models, overrides.insert(model, value), other)
            == temperature_in_force(models, overrides, other),
        models.dom().contains(model) && !overrides.dom().contains(model) ==> temperature_in_force(
            models,
            overrides,
            model,
        ) == models[model].temperature,
        !models.dom().contains(model) && !overrides.dom().contains(model) ==> temperature_in_force(
            models,
            overrides,
            model,
        ) is None,
{
}

/// The provider knows a model by the name that the registry has for it, and by its
/// label where the registry has none.
pub proof fn law_the_provider_knows_a_model_by_its_key(
    models: Map<Seq<char>, ResourceEntry>,
    label: Seq<char>,
)
    ensures
        models.dom().contains(label) ==> (models[label].lm_studio_key matches Some(k) ==> key_of(
            models,
            label,
        ) == k@),
        models.dom().contains(label) && models[label].lm_studio_key is None ==> key_of(models, label)
            == label,
        !models.dom().contains(label) ==> key_of(models, label) == label,
{
}

/// A temperature is accepted from zero to two: their bit patterns are the smallest and
/// the largest that are, beside that of the negative zero.
pub proof fn law_temperatures_lie_between_zero_and_two(t: Temperature)
    ensures
        t.in_range() <==> t.bits <= 0x4000_0000 || t.bits == 0x8000_0000,
{
}

/// Whether a block of a file begins at one line and ends before another: the first
/// line that begins with the model's name and a colon, up to the next line that is
/// neither blank nor begins with a space.
pub open spec fn is_block(lines: Seq<Seq<char>>, model: Seq<char>, start: int, end: int) -> bool {
    &&& 0 <= start < end <= lines.len()
    &&& (model + ":"@).is_prefix_of(lines[start])
    &&& forall|i: int| 0 <= i < start ==> !(model + ":"@).is_prefix_of(#[trigger] lines[i])
    &&& forall|i: int|
        start < i < end ==> text::is_blank(#[trigger] lines[i]) || (lines[i].len() > 0 && lines[i][0]
            == ' ')
    &&& end < lines.len() ==> !text::is_blank(lines[end]) && !(lines[end].len() > 0 && lines[end][0]
        == ' ')
}

/// A temperature is set in the block of its own model: in place of the first line of
/// the block that sets one, or, where none does, behind the last line of the block that
/// is not blank. A temperature that is taken away is written as `null`.
pub proof fn law_a_temperature_is_set_in_its_block(
    raw: Seq<char>,
    model: Seq<char>,
    shown: Option<Seq<char>>,
    start: int,
    end: int,
    at: int,
)
    requires
        is_block(text::lines(raw), model, start, end),
        start <= at <= end,
    ensures
        ({
            let lines = text::lines(raw);
            let line = "  temperature: "@ + match shown {
                Some(v) => v,
                None => "null"@,
            };
            &&& at < end && "temperature:"@.is_prefix_of(text::trim_start(lines[at])) && (forall|i: int|
                start <= i < at ==> !"temperature:"@.is_prefix_of(
                    text::trim_start(#[trigger] lines[i]),
                )) ==> with_temperature(raw, model, shown) == text::joined(
                lines.update(at, line),
                "\n"@,
            ) + "\n"@
            &&& at > start && !text::is_blank(lines[at - 1]) && (forall|i: int|
                at <= i < end ==> text::is_blank(#[trigger] lines[i])) && (forall|i: int|
                start <= i < end ==> !"temperature:"@.is_prefix_of(
                    text::trim_start(#[trigger] lines[i]),
                )) ==> with_temperature(raw, model, shown) == text::joined(
                lines.insert(at, line),
                "\n"@,
            ) + "\n"@
        }),
{
    let lines = text::lines(raw);
    reveal_strlit("  temperature: ");
    reveal_strlit("  temperature: null");
    reveal_strlit("null");
    assert("  temperature: "@ + "null"@ =~= "  temperature: null"@);
    lemma_block_start_is(lines, header_of(model), 0, start);
    assert forall|i: int| start + 1 <= i < end implies !leaves_block(#[trigger] lines[i]) by {}
    lemma_block_end_is(lines, start + 1, end);
    lemma_setting_line(lines, start, end);
    let s = setting_line(lines, start, end);
    if at < end && sets_temperature(lines[at]) && forall|i: int|
        start <= i < at ==> !sets_temperature(#[trigger] lines[i]) {
        lemma_setting_line_is(lines, start, end, at);
    }
    if at > start && !text::is_blank(lines[at - 1]) && forall|i: int|
        at <= i < end ==> text::is_blank(#[trigger] lines[i]) {
        lemma_after_content_is(lines, start, end, at);
    }
}

proof fn lemma_after_content_is(lines: Seq<Seq<char>>, from: int, to: int, at: int)
    requires
        0 <= from < at <= to <= lines.len(),
        !text::is_blank(lines[at - 1]),
        forall|i: int| at <= i < to ==> text::is_blank(#[trigger] lines[i]),
    ensures
        after_content(lines, from, to) == at,
    decreases to - at,
{
    if at < to {
        lemma_after_content_is(lines, from, to - 1, at);
    }
}

/// A refusal tells the number as it was shown, or the model that has no block.
pub proof fn law_a_refused_setting_is_told(shown: Seq<char>, model: Seq<char>)
    ensures
        shown.is_suffix_of(temperature_error(shown)),
        no_block_error(model) == "блок модели '"@ + model + "' не найден в YAML"@,
        header_of(model) == model + ":"@,
{
    let w = temperature_error(shown);
    assert(shown =~= w.subrange(w.len() - shown.len(), w.len() as int));
}

} // verus!
