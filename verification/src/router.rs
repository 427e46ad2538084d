//! Which category a task belongs to. The answer follows from the text and what
//! is known of the task; no model is asked.

use crate::text;
use vstd::prelude::*;

verus! {

/// The category of a task, named as in the registry of categories.
#[derive(Debug, Clone, Copy, PartialEq, Eq, Hash, Structural)]
pub enum Category {
    Simple,
    Programming,
    LargeProject,
    Engineering,
    DeepAnalysis,
    Video,
    Research,
}

impl Category {
    /// The name in the registry.
    pub open spec fn name(self) -> Seq<char> {
        match self {
            Category::Simple => "Simple"@,
            Category::Programming => "Programming"@,
            Category::LargeProject => "LargeProject"@,
            Category::Engineering => "Engineering"@,
            Category::DeepAnalysis => "DeepAnalysis"@,
            Category::Video => "Video"@,
            Category::Research => "Research"@,
        }
    }

    /// The name in the registry.
    pub fn as_str(self) -> (r: &'static str)
        ensures
            r@ == self.name(),
    {
        match self {
            Category::Simple => "Simple",
            Category::Programming => "Programming",
            Category::LargeProject => "LargeProject",
            Category::Engineering => "Engineering",
            Category::DeepAnalysis => "DeepAnalysis",
            Category::Video => "Video",
            Category::Research => "Research",
        }
    }
}

/// What is known of a task before its text is read.
#[derive(Debug, Clone)]
pub struct TaskMetadata {
    /// The category, where the agent has named it.
    pub agent_category: Option<Category>,
    /// How many files the task touches.
    pub file_count: usize,
    /// How many lines of code it touches.
    pub total_lines: usize,
}

impl Default for TaskMetadata {
    fn default() -> (r: Self)
        ensures
            r.agent_category is None,
            r.file_count == 0,
            r.total_lines == 0,
    {
        TaskMetadata { agent_category: None, file_count: 0, total_lines: 0 }
    }
}

/// From how many files on a task counts as a large project.
pub const LARGE_PROJECT_FILE_THRESHOLD: usize = 10;

/// From how many lines on a task counts as a large project.
pub const LARGE_PROJECT_LINES_THRESHOLD: usize = 1000;

pub const ENGINEERING_KEYWORDS: [&'static str; 11] = [
    "расчёт",
    "расчет",
    "stm32",
    "esp32",
    "sfs",
    "двигатель",
    "тяга",
    "орбита",
    "cadquery",
    "прошивка",
    "микроконтроллер",
];

pub const DEEP_ANALYSIS_KEYWORDS: [&'static str; 5] = [
    "архитектур",
    "проверь весь",
    "аудит",
    "рефактори",
    "проанализируй проект",
];

pub const VIDEO_KEYWORDS: [&'static str; 6] = [
    "видео",
    "монтаж",
    "смонтируй",
    "субтитры",
    "таймкод",
    "ffmpeg",
];

pub const RESEARCH_KEYWORDS: [&'static str; 5] = [
    "найди статью",
    "исследуй",
    "новост",
    "почитай про",
    "изучи вопрос",
];

pub const PROGRAMMING_KEYWORDS: [&'static str; 8] = [
    "напиши функцию",
    "напиши код",
    "исправь баг",
    "исправь ошибку",
    "рефактор",
    "diff",
    "compile",
    "компилир",
];

/// Whether one of several words occurs in a text.
pub open spec fn mentions(s: Seq<char>, keywords: Seq<&str>) -> bool {
    exists|i: int| 0 <= i < keywords.len() && text::occurs((#[trigger] keywords[i])@, s)
}

/// Whether one of several words occurs in a text.
pub fn contains_any(s: &str, keywords: &[&str]) -> (r: bool)
    ensures
        r == mentions(s@, keywords@),
{
    let mut i: usize = 0;
    while i < keywords.len()
        invariant
            i <= keywords@.len(),
            forall|k: int| 0 <= k < i ==> !text::occurs((#[trigger] keywords@[k])@, s@),
        decreases keywords@.len() - i,
    {
        if text::contains(s, keywords[i]) {
            assert(text::occurs(keywords@[i as int]@, s@));
            return true;
        }
        i = i + 1;
    }
    false
}

/// The category that a text in lower case speaks of: the most specific one whose
/// words occur in it.
pub open spec fn category_of(lower: Seq<char>) -> Category {
    if mentions(lower, ENGINEERING_KEYWORDS@) {
        Category::Engineering
    } else if mentions(lower, DEEP_ANALYSIS_KEYWORDS@) {
        Category::DeepAnalysis
    } else if mentions(lower, VIDEO_KEYWORDS@) {
        Category::Video
    } else if mentions(lower, RESEARCH_KEYWORDS@) {
        Category::Research
    } else if mentions(lower, PROGRAMMING_KEYWORDS@) {
        Category::Programming
    } else {
        Category::Simple
    }
}

/// The category of a task: what the agent says, else what its size says, else
/// what its text says.
pub open spec fn classification(lower: Seq<char>, metadata: TaskMetadata) -> Category {
    match metadata.agent_category {
        Some(category) => category,
        None => if metadata.file_count >= LARGE_PROJECT_FILE_THRESHOLD || metadata.total_lines
            >= LARGE_PROJECT_LINES_THRESHOLD {
            Category::LargeProject
        } else {
            category_of(lower)
        },
    }
}

/// Finds the category of a task.
pub struct Router;

impl Router {
    /// The category of a task by its text and what is known of it.
    pub fn classify(text: &str, metadata: &TaskMetadata) -> (r: Category)
        ensures
            r == classification(text::lowercase(text@), *metadata),
    {
        let lower = text.to_lowercase();
        Self::classify_lowered(lower.as_str(), metadata)
    }

    /// The category of a task by its text in lower case and what is known of it.
    pub fn classify_lowered(lower: &str, metadata: &TaskMetadata) -> (r: Category)
        ensures
            r == classification(lower@, *metadata),
    {
        if let Some(category) = metadata.agent_category {
            return category;
        }
        if metadata.file_count >= LARGE_PROJECT_FILE_THRESHOLD || metadata.total_lines
            >= LARGE_PROJECT_LINES_THRESHOLD {
            return Category::LargeProject;
        }
        if contains_any(lower, ENGINEERING_KEYWORDS.as_slice()) {
            return Category::Engineering;
        }
        if contains_any(lower, DEEP_ANALYSIS_KEYWORDS.as_slice()) {
            return Category::DeepAnalysis;
        }
        if contains_any(lower, VIDEO_KEYWORDS.as_slice()) {
            return Category::Video;
        }
        if contains_any(lower, RESEARCH_KEYWORDS.as_slice()) {
            return Category::Research;
        }
        if contains_any(lower, PROGRAMMING_KEYWORDS.as_slice()) {
            return Category::Programming;
        }
        Category::Simple
    }
}

/// What the agent says goes before everything else.
pub proof fn law_agent_goes_first(lower: Seq<char>, metadata: TaskMetadata)
    requires
        metadata.agent_category is Some,
    ensures
        classification(lower, metadata) == metadata.agent_category->0,
{
}

/// The size of a task goes before its text.
pub proof fn law_size_goes_before_text(lower: Seq<char>, metadata: TaskMetadata)
    requires
        metadata.agent_category is None,
        metadata.file_count >= LARGE_PROJECT_FILE_THRESHOLD || metadata.total_lines
            >= LARGE_PROJECT_LINES_THRESHOLD,
    ensures
        classification(lower, metadata) == Category::LargeProject,
{
}

/// Whether the `i`-th of several words stands in a text, from a place on.
pub open spec fn stands_at(s: Seq<char>, at: int, keywords: Seq<&str>, i: int) -> bool {
    &&& 0 <= i < keywords.len()
    &&& 0 <= at
    &&& at + keywords[i]@.len() <= s.len()
    &&& s.subrange(at, at + keywords[i]@.len()) == keywords[i]@
}

proof fn lemma_stands_at(s: Seq<char>, at: int, keywords: Seq<&str>, i: int)
    requires
        stands_at(s, at, keywords, i),
    ensures
        mentions(s, keywords),
{
    let word = keywords[i]@;
    assert(s.skip(at).subrange(0, word.len() as int) =~= s.subrange(at, at + word.len()));
    assert(word.is_prefix_of(s.skip(at)));
    assert(text::occurs(word, s));
}

proof fn lemma_mentions(s: Seq<char>, keywords: Seq<&str>)
    requires
        mentions(s, keywords),
    ensures
        exists|i: int, at: int| stands_at(s, at, keywords, i),
{
    let i = choose|i: int| 0 <= i < keywords.len() && text::occurs((#[trigger] keywords[i])@, s);
    let word = keywords[i]@;
    let at = choose|at: int| 0 <= at <= s.len() && word.is_prefix_of(#[trigger] s.skip(at));
    assert(s.skip(at).subrange(0, word.len() as int) =~= s.subrange(at, at + word.len()));
    assert(stands_at(s, at, keywords, i));
}

/// The more specific words go first, wherever they stand and whatever else the text
/// says: a word of engineering makes a small task of no named category one of
/// engineering; without one a word of analysis decides, then one of video, then one
/// of research, and only then one of programming.
pub proof fn law_specific_words_go_first(
    lower: Seq<char>,
    metadata: TaskMetadata,
    at: int,
    i: int,
)
    requires
        metadata.agent_category is None,
        metadata.file_count < 10,
        metadata.total_lines < 1000,
    ensures
        stands_at(lower, at, ENGINEERING_KEYWORDS@, i) ==> classification(lower, metadata)
            == Category::Engineering,
        stands_at(lower, at, DEEP_ANALYSIS_KEYWORDS@, i) ==> {
            ||| classification(lower, metadata) == Category::Engineering
            ||| classification(lower, metadata) == Category::DeepAnalysis
        },
        stands_at(lower, at, VIDEO_KEYWORDS@, i) ==> {
            ||| classification(lower, metadata) == Category::Engineering
            ||| classification(lower, metadata) == Category::DeepAnalysis
            ||| classification(lower, metadata) == Category::Video
        },
        stands_at(lower, at, RESEARCH_KEYWORDS@, i) ==> {
            ||| classification(lower, metadata) == Category::Engineering
            ||| classification(lower, metadata) == Category::DeepAnalysis
            ||| classification(lower, metadata) == Category::Video
            ||| classification(lower, metadata) == Category::Research
        },
        stands_at(lower, at, PROGRAMMING_KEYWORDS@, i) ==> classification(lower, metadata)
            != Category::Simple,
{
    if stands_at(lower, at, ENGINEERING_KEYWORDS@, i) {
        lemma_stands_at(lower, at, ENGINEERING_KEYWORDS@, i);
    }
    if stands_at(lower, at, DEEP_ANALYSIS_KEYWORDS@, i) {
        lemma_stands_at(lower, at, DEEP_ANALYSIS_KEYWORDS@, i);
    }
    if stands_at(lower, at, VIDEO_KEYWORDS@, i) {
        lemma_stands_at(lower, at, VIDEO_KEYWORDS@, i);
    }
    if stands_at(lower, at, RESEARCH_KEYWORDS@, i) {
        lemma_stands_at(lower, at, RESEARCH_KEYWORDS@, i);
    }
    if stands_at(lower, at, PROGRAMMING_KEYWORDS@, i) {
        lemma_stands_at(lower, at, PROGRAMMING_KEYWORDS@, i);
    }
}

/// A text makes a task one of a category only if a word of that category stands in
/// it, and never makes it a large project.
pub proof fn law_a_category_is_spoken_of(lower: Seq<char>, metadata: TaskMetadata)
    requires
        metadata.agent_category is None,
        metadata.file_count < 10,
        metadata.total_lines < 1000,
    ensures
        match classification(lower, metadata) {
            Category::Engineering => exists|i: int, at: int|
                stands_at(lower, at, ENGINEERING_KEYWORDS@, i),
            Category::DeepAnalysis => exists|i: int, at: int|
                stands_at(lower, at, DEEP_ANALYSIS_KEYWORDS@, i),
            Category::Video => exists|i: int, at: int| stands_at(lower, at, VIDEO_KEYWORDS@, i),
            Category::Research => exists|i: int, at: int|
                stands_at(lower, at, RESEARCH_KEYWORDS@, i),
            Category::Programming => exists|i: int, at: int|
                stands_at(lower, at, PROGRAMMING_KEYWORDS@, i),
            Category::LargeProject => false,
            Category::Simple => true,
        },
{
    match classification(lower, metadata) {
        Category::Engineering => {
            lemma_mentions(lower, ENGINEERING_KEYWORDS@);
        },
        Category::DeepAnalysis => {
            lemma_mentions(lower, DEEP_ANALYSIS_KEYWORDS@);
        },
        Category::Video => {
            lemma_mentions(lower, VIDEO_KEYWORDS@);
        },
        Category::Research => {
            lemma_mentions(lower, RESEARCH_KEYWORDS@);
        },
        Category::Programming => {
            lemma_mentions(lower, PROGRAMMING_KEYWORDS@);
        },
        _ => {},
    }
}

/// A task of ten files or of a thousand lines, of which no category was named, is a
/// large project, and only such a task is.
pub proof fn law_only_size_makes_a_large_project(lower: Seq<char>, metadata: TaskMetadata)
    requires
        metadata.agent_category is None,
    ensures
        classification(lower, metadata) == Category::LargeProject <==> metadata.file_count >= 10
            || metadata.total_lines >= 1000,
{
}

/// Different categories have different names, so the category that a name stands
/// for is the one that was meant.
pub proof fn law_category_names_differ(a: Category, b: Category)
    ensures
        a.name() == b.name() ==> a == b,
{
    reveal_strlit("Simple");
    reveal_strlit("Programming");
    reveal_strlit("LargeProject");
    reveal_strlit("Engineering");
    reveal_strlit("DeepAnalysis");
    reveal_strlit("Video");
    reveal_strlit("Research");
    assert(a.name().len() == b.name().len() || a.name() != b.name());
    assert("Programming"@[0] != "Engineering"@[0]);
    assert("LargeProject"@[0] != "DeepAnalysis"@[0]);
}

} // verus!
