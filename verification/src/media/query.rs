//! From the text of a task to the words to search for.
//!
//! A model is asked for the words; what it answers is cleaned up here, and where
//! nothing usable is left the task's own text is searched for.

use crate::model_backend;
use crate::model_backend::{GenerateRequest, Message, MessageView, Role};
use crate::text;
use vstd::prelude::*;

verus! {

broadcast use text::texts_push;

/// The model that is asked for the words.
pub const EXTRACTION_MODEL_LABEL: &'static str = "Fable9B";

/// How long an answer may be; a longer one retells the task.
pub const MAX_TERM_CHARS: usize = 60;

/// How many words are searched for; all of them have to match.
pub const MAX_TERM_WORDS: usize = 3;

/// Words that must not stand at the end of a search.
pub const TRAILING_STOPWORDS: [&'static str; 40] = [
    "a", "an", "the", "of", "on", "in", "at", "to", "for", "with", "by", "from", "over", "under",
    "into", "near", "and", "or", "в", "во", "на", "над", "под", "у", "к", "ко", "с", "со", "из",
    "от", "до", "по", "за", "при", "про", "для", "и", "или", "около", "возле",
];

/// Whether a word in lower case must not stand at the end of a search.
pub open spec fn is_stopword(lower: Seq<char>) -> bool {
    exists|i: int| 0 <= i < TRAILING_STOPWORDS@.len() && (#[trigger] TRAILING_STOPWORDS@[i])@ == lower
}

/// Whether a word in lower case must not stand at the end of a search.
fn stopword(lower: &str) -> (r: bool)
    ensures
        r == is_stopword(lower@),
{
    let list = TRAILING_STOPWORDS.as_slice();
    let mut i: usize = 0;
    while i < list.len()
        invariant
            i <= list@.len(),
            list@ == TRAILING_STOPWORDS@,
            forall|k: int| 0 <= k < i ==> (#[trigger] TRAILING_STOPWORDS@[k])@ != lower@,
        decreases list@.len() - i,
    {
        assert(list@[i as int] == TRAILING_STOPWORDS@[i as int]);
        if text::same(list[i], lower) {
            return true;
        }
        i = i + 1;
    }
    false
}

/// Words without the ones at the end that must not stand there; one word always
/// stays. `lowered` are the words in lower case.
pub open spec fn stripped(words: Seq<Seq<char>>, lowered: Seq<Seq<char>>) -> Seq<Seq<char>>
    decreases words.len(),
{
    if words.len() > 1 && is_stopword(lowered.last()) {
        stripped(words.drop_last(), lowered.drop_last())
    } else {
        words
    }
}

/// Takes the words away at the end that must not stand there; one word always
/// stays. `lowered` are the words in lower case.
pub fn strip_words(words: Vec<String>, lowered: &Vec<String>) -> (r: Vec<String>)
    requires
        words@.len() == lowered@.len(),
    ensures
        text::texts(r@) == stripped(text::texts(words@), text::texts(lowered@)),
{
    let mut words = words;
    let ghost all = text::texts(words@);
    let ghost low = text::texts(lowered@);
    let mut n: usize = words.len();
    assert(all.take(n as int) =~= all);
    assert(low.take(n as int) =~= low);
    while n > 1 && stopword(lowered[n - 1].as_str())
        invariant
            n <= lowered@.len(),
            words@.len() == lowered@.len(),
            all == text::texts(words@),
            low == text::texts(lowered@),
            stripped(all.take(n as int), low.take(n as int)) == stripped(all, low),
        decreases n,
    {
        assert(low.take(n as int).last() == lowered@[n - 1]@);
        assert(all.take(n as int).drop_last() =~= all.take(n - 1));
        assert(low.take(n as int).drop_last() =~= low.take(n - 1));
        n = n - 1;
    }
    assert(n > 1 ==> low.take(n as int).last() == lowered@[n - 1]@);
    words.truncate(n);
    assert(text::texts(words@) =~= all.take(n as int));
    words
}

/// The words in lower case.
pub open spec fn lowercase_all(words: Seq<Seq<char>>) -> Seq<Seq<char>> {
    words.map_values(|w: Seq<char>| text::lowercase(w))
}

/// Puts words into lower case.
fn lower_all(words: &Vec<String>) -> (r: Vec<String>)
    ensures
        r@.len() == words@.len(),
        text::texts(r@) == lowercase_all(text::texts(words@)),
{
    let mut out: Vec<String> = Vec::new();
    let mut i: usize = 0;
    while i < words.len()
        invariant
            i <= words@.len(),
            out@.len() == i,
            forall|k: int| 0 <= k < i ==> (#[trigger] out@[k])@ == text::lowercase(words@[k]@),
        decreases words@.len() - i,
    {
        out.push(words[i].as_str().to_lowercase());
        i = i + 1;
    }
    assert(text::texts(out@) =~= lowercase_all(text::texts(words@)));
    out
}

/// A term without the words at its end that must not stand there.
pub open spec fn stripped_term(term: Seq<char>) -> Seq<char> {
    let w = text::words(term);
    if w.len() == 0 {
        term
    } else {
        text::joined(stripped(w, lowercase_all(w)), " "@)
    }
}

/// Takes the words away at the end of a term that must not stand there. Never
/// all of them: a term with a word in it keeps one.
pub fn strip_trailing_stopwords(term: &str) -> (r: String)
    ensures
        r@ == stripped_term(term@),
{
    let words = text::split_words(term);
    assert(words@.len() == text::texts(words@).len());
    if words.len() == 0 {
        return term.to_owned();
    }
    let lowered = lower_all(&words);
    let kept = strip_words(words, &lowered);
    text::join(&kept, " ")
}

/// What is left of several words are the first of them, one at least.
pub proof fn lemma_stripped(words: Seq<Seq<char>>, lowered: Seq<Seq<char>>)
    ensures
        stripped(words, lowered).len() <= words.len(),
        stripped(words, lowered) == words.take(stripped(words, lowered).len() as int),
        words.len() > 0 ==> stripped(words, lowered).len() > 0,
    decreases words.len(),
{
    if words.len() > 1 && is_stopword(lowered.last()) {
        let w = words.drop_last();
        lemma_stripped(w, lowered.drop_last());
        let n = stripped(words, lowered).len() as int;
        assert(w.take(n) =~= words.take(n));
    } else {
        assert(words.take(words.len() as int) =~= words);
    }
}

/// What the model is told.
pub const EXTRACTION_PROMPT: &'static str = "Ты выделяешь поисковый запрос для банка фотографий. Ответь ТОЛЬКО названием предмета съёмки: одно-два слова, связная фраза. ВСЕГДА НА АНГЛИЙСКОМ, даже если задача на другом языке (например «mountain lake», «winter forest»). НЕ перечисляй синонимы через пробел. Без глаголов-команд, без слов «видео», «фото», «сделай». Без кавычек, без пояснений, без точки в конце.";

/// What the model is asked about a task.
pub open spec fn extraction_messages(task_text: Seq<char>) -> Seq<MessageView> {
    seq![
        model_backend::plain_message(Role::System, EXTRACTION_PROMPT@),
        model_backend::plain_message(
            Role::User,
            "Задача: "@ + task_text + "\nКлючевые слова:"@,
        ),
    ]
}

/// What the model is asked about a task.
pub fn build_messages(task_text: &str) -> (r: Vec<Message>)
    ensures
        model_backend::messages(r@) == extraction_messages(task_text@),
{
    let mut out: Vec<Message> = Vec::new();
    out.push(Message::new(Role::System, String::from_str(EXTRACTION_PROMPT)));
    let mut question = String::from_str("Задача: ");
    question.append(task_text);
    question.append("\nКлючевые слова:");
    out.push(Message::new(Role::User, question));
    assert(model_backend::messages(out@) =~= extraction_messages(task_text@));
    out
}

/// The request for the words: no tools, and the temperature left to the registry.
pub fn build_request(task_text: &str) -> (r: GenerateRequest)
    ensures
        model_backend::messages(r.messages@) == extraction_messages(task_text@),
        r.tools@.len() == 0,
        r.temperature is None,
{
    GenerateRequest { messages: build_messages(task_text), tools: Vec::new(), temperature: None }
}

/// Whether a character ends a line of an answer: a line feed, a carriage return, a
/// vertical tab, a form feed, a separator of files, groups or records, a next
/// line, or a separator of lines or paragraphs.
pub open spec fn is_separator(c: char) -> bool {
    c == '\n' || c == '\r' || c == '\u{0b}' || c == '\u{0c}' || c == '\u{1c}' || c == '\u{1d}' || c
        == '\u{1e}' || c == '\u{85}' || c == '\u{2028}' || c == '\u{2029}'
}

fn separator(c: char) -> (r: bool)
    ensures
        r == is_separator(c),
{
    c == '\n' || c == '\r' || c == '\u{0b}' || c == '\u{0c}' || c == '\u{1c}' || c == '\u{1d}' || c
        == '\u{1e}' || c == '\u{85}' || c == '\u{2028}' || c == '\u{2029}'
}

/// The text up to the last character that is neither white space nor the end of a
/// line.
pub open spec fn without_blank_end(s: Seq<char>) -> Seq<char>
    decreases s.len(),
{
    if s.len() > 0 && (text::is_space(s.last()) || is_separator(s.last())) {
        without_blank_end(s.drop_last())
    } else {
        s
    }
}

/// How many characters stand behind the last line end.
pub open spec fn tail_len(s: Seq<char>) -> nat
    decreases s.len(),
{
    if s.len() == 0 || is_separator(s.last()) {
        0
    } else {
        1 + tail_len(s.drop_last())
    }
}

/// The last line of an answer that is not blank, without white space around it;
/// nothing where all lines are blank. It is what stands behind the last line end
/// once the blank lines at the end are gone.
pub open spec fn answer_line(raw: Seq<char>) -> Option<Seq<char>> {
    let t = without_blank_end(raw);
    if t.len() == 0 {
        None
    } else {
        Some(text::trim_start(t.skip(t.len() - tail_len(t))))
    }
}

/// Whether a character is decoration at the edge of an answer.
pub open spec fn is_decoration(c: char) -> bool {
    text::is_space(c) || c == '"' || c == '\'' || c == '«' || c == '»' || c == '-' || c == '*' || c == '.'
        || c == ':' || c == '•'
}

fn decoration(c: char) -> (r: bool)
    ensures
        r == is_decoration(c),
{
    text::white_space(c) || c == '"' || c == '\'' || c == '«' || c == '»' || c == '-' || c == '*' || c
        == '.' || c == ':' || c == '•'
}

/// A line without decoration at its start.
pub open spec fn bare_start(s: Seq<char>) -> Seq<char>
    decreases s.len(),
{
    if s.len() > 0 && is_decoration(s[0]) {
        bare_start(s.skip(1))
    } else {
        s
    }
}

/// A line without decoration at its end.
pub open spec fn bare_end(s: Seq<char>) -> Seq<char>
    decreases s.len(),
{
    if s.len() > 0 && is_decoration(s.last()) {
        bare_end(s.drop_last())
    } else {
        s
    }
}

/// The characters that stay: letters and numbers, white space and hyphens.
/// `letters` says of each character whether it is a letter or a number.
pub open spec fn kept(s: Seq<char>, letters: Seq<bool>) -> Seq<char>
    decreases s.len(),
{
    if s.len() == 0 {
        Seq::empty()
    } else {
        let before = kept(s.drop_last(), letters.drop_last());
        if letters.last() || text::is_space(s.last()) || s.last() == '-' {
            before.push(s.last())
        } else {
            before
        }
    }
}

/// The first words of a cleaned answer; nothing where it has none, or is so long
/// that it retells the task.
pub open spec fn first_words(cleaned: Seq<char>) -> Option<Seq<Seq<char>>> {
    let w = text::words(cleaned);
    if w.len() == 0 || cleaned.len() > MAX_TERM_CHARS {
        None
    } else if w.len() > MAX_TERM_WORDS {
        Some(w.take(MAX_TERM_WORDS as int))
    } else {
        Some(w)
    }
}

/// For each character, whether it is a letter or a number.
pub open spec fn letters_of(s: Seq<char>) -> Seq<bool> {
    s.map_values(|c: char| text::alphanumeric(c))
}

/// The words to search for that an answer holds, where it holds any.
pub open spec fn search_term(raw: Seq<char>) -> Option<Seq<char>> {
    match answer_line(raw) {
        None => None,
        Some(line) => {
            let bare = bare_end(bare_start(line));
            match first_words(kept(bare, letters_of(bare))) {
                None => None,
                Some(w) => Some(text::joined(stripped(w, lowercase_all(w)), " "@)),
            }
        },
    }
}

/// The last line of an answer that is not blank, without white space around it.
pub fn last_line(raw: &str) -> (r: Option<Vec<char>>)
    ensures
        match r {
            Some(v) => answer_line(raw@) == Some(v@),
            None => answer_line(raw@) is None,
        },
{
    let v = text::chars_of(raw);
    let mut end: usize = v.len();
    assert(v@.take(end as int) =~= raw@);
    while end > 0 && (text::white_space(v[end - 1]) || separator(v[end - 1]))
        invariant
            end <= v@.len(),
            without_blank_end(v@.take(end as int)) == without_blank_end(raw@),
        decreases end,
    {
        assert(v@.take(end as int).drop_last() =~= v@.take(end - 1));
        end = end - 1;
    }
    let ghost t = v@.take(end as int);
    assert(end > 0 ==> t.last() == v@[end - 1]);
    assert(without_blank_end(raw@) == t);
    if end == 0 {
        return None;
    }
    let mut start: usize = end;
    assert(t.take(end as int) =~= t);
    while start > 0 && !separator(v[start - 1])
        invariant
            start <= end <= v@.len(),
            t == v@.take(end as int),
            tail_len(t) == (end - start) + tail_len(t.take(start as int)),
        decreases start,
    {
        assert(t.take(start as int).last() == v@[start - 1]);
        assert(t.take(start as int).drop_last() =~= t.take(start - 1));
        start = start - 1;
    }
    assert(start > 0 ==> t.take(start as int).last() == v@[start - 1]);
    assert(tail_len(t.take(start as int)) == 0);
    let ghost rest = t.skip(start as int);
    let mut from: usize = start;
    assert(t.skip(from as int) =~= rest);
    while from < end && text::white_space(v[from])
        invariant
            start <= from <= end <= v@.len(),
            t == v@.take(end as int),
            text::trim_start(t.skip(from as int)) == text::trim_start(rest),
        decreases end - from,
    {
        assert(t.skip(from as int)[0] == v@[from as int]);
        assert(t.skip(from as int).skip(1) =~= t.skip(from + 1));
        from = from + 1;
    }
    assert(from < end ==> t.skip(from as int)[0] == v@[from as int]);
    let line = cut(&v, from, end);
    assert(line@ =~= t.skip(from as int));
    Some(line)
}

/// The characters from one position up to another.
fn cut(v: &Vec<char>, from: usize, to: usize) -> (r: Vec<char>)
    requires
        from <= to <= v@.len(),
    ensures
        r@ == v@.subrange(from as int, to as int),
{
    let mut out: Vec<char> = Vec::new();
    let mut i: usize = from;
    while i < to
        invariant
            from <= i <= to <= v@.len(),
            out@ == v@.subrange(from as int, i as int),
        decreases to - i,
    {
        out.push(v[i]);
        i = i + 1;
        assert(out@ =~= v@.subrange(from as int, i as int));
    }
    out
}

/// Takes the decoration off a line.
pub fn undecorate(line: &Vec<char>) -> (r: Vec<char>)
    ensures
        r@ == bare_end(bare_start(line@)),
{
    let mut from: usize = 0;
    assert(line@.skip(0) =~= line@);
    while from < line.len() && decoration(line[from])
        invariant
            from <= line@.len(),
            bare_start(line@.skip(from as int)) == bare_start(line@),
        decreases line@.len() - from,
    {
        assert(line@.skip(from as int)[0] == line@[from as int]);
        assert(line@.skip(from as int).skip(1) =~= line@.skip(from + 1));
        from = from + 1;
    }
    assert(from < line@.len() ==> line@.skip(from as int)[0] == line@[from as int]);
    let ghost rest = line@.skip(from as int);
    assert(bare_start(line@) == rest);
    let mut to: usize = line.len();
    assert(line@.subrange(from as int, to as int) =~= rest);
    while to > from && decoration(line[to - 1])
        invariant
            from <= to <= line@.len(),
            bare_end(line@.subrange(from as int, to as int)) == bare_end(rest),
        decreases to,
    {
        let ghost now = line@.subrange(from as int, to as int);
        assert(now.last() == line@[to - 1]);
        assert(now.drop_last() =~= line@.subrange(from as int, to - 1));
        to = to - 1;
    }
    assert(to > from ==> line@.subrange(from as int, to as int).last() == line@[to - 1]);
    cut(line, from, to)
}

/// Keeps letters, numbers, white space and hyphens. `letters` says of each
/// character whether it is a letter or a number.
pub fn keep_words(line: &Vec<char>, letters: &Vec<bool>) -> (r: String)
    requires
        line@.len() == letters@.len(),
    ensures
        r@ == kept(line@, letters@),
{
    let mut out = String::new();
    let mut i: usize = 0;
    while i < line.len()
        invariant
            i <= line@.len(),
            line@.len() == letters@.len(),
            out@ == kept(line@.take(i as int), letters@.take(i as int)),
        decreases line@.len() - i,
    {
        assert(line@.take(i + 1).drop_last() =~= line@.take(i as int));
        assert(letters@.take(i + 1).drop_last() =~= letters@.take(i as int));
        let c: char = line[i];
        if letters[i] || text::white_space(c) || c == '-' {
            out.push(c);
        }
        i = i + 1;
    }
    assert(line@.take(line@.len() as int) =~= line@);
    assert(letters@.take(letters@.len() as int) =~= letters@);
    out
}

/// The first words of a cleaned answer.
pub fn limit_words(cleaned: &str) -> (r: Option<Vec<String>>)
    ensures
        match r {
            Some(w) => first_words(cleaned@) == Some(text::texts(w@)) && w@.len() > 0,
            None => first_words(cleaned@) is None,
        },
{
    let mut words = text::split_words(cleaned);
    let ghost all = text::texts(words@);
    if words.len() == 0 {
        return None;
    }
    if cleaned.unicode_len() > MAX_TERM_CHARS {
        return None;
    }
    if words.len() > MAX_TERM_WORDS {
        words.truncate(MAX_TERM_WORDS);
        assert(text::texts(words@) =~= all.take(MAX_TERM_WORDS as int));
    }
    Some(words)
}

/// The words to search for that a model's answer holds: the last line that is not
/// blank, without decoration, at most three words and none at the end that must
/// not stand there. `None` where nothing usable is left.
pub fn sanitize(raw: &str) -> (r: Option<String>)
    ensures
        text::opt_text(r) == search_term(raw@),
{
    let line = match last_line(raw) {
        Some(line) => line,
        None => {
            return None;
        },
    };
    let bare = undecorate(&line);
    let mut letters: Vec<bool> = Vec::new();
    let mut i: usize = 0;
    while i < bare.len()
        invariant
            i <= bare@.len(),
            letters@.len() == i,
            forall|k: int| 0 <= k < i ==> #[trigger] letters@[k] == text::alphanumeric(bare@[k]),
        decreases bare@.len() - i,
    {
        letters.push(bare[i].is_alphanumeric());
        i = i + 1;
    }
    assert(letters@ =~= letters_of(bare@));
    let cleaned = keep_words(&bare, &letters);
    match limit_words(cleaned.as_str()) {
        Some(words) => {
            let lowered = lower_all(&words);
            let chosen = strip_words(words, &lowered);
            Some(text::join(&chosen, " "))
        },
        None => None,
    }
}

/// The searches to try for a term, from all its words down to the first alone.
pub open spec fn narrowings(words: Seq<Seq<char>>) -> Seq<Seq<char>> {
    Seq::new(
        words.len(),
        |i: int| text::joined(words.take(words.len() - i), " "@),
    )
}

/// The searches to try for a term, one after the other: all its words, then one
/// word fewer each time, down to the first alone.
pub fn narrowing_variants(term: &str) -> (r: Vec<String>)
    ensures
        text::texts(r@) == narrowings(text::words(term@)),
{
    let words = text::split_words(term);
    let ghost w = text::words(term@);
    let ghost wanted = narrowings(w);
    let n: usize = words.len();
    assert(n == text::texts(words@).len());
    let mut out: Vec<String> = Vec::new();
    let mut take: usize = n;
    assert(text::texts(out@) =~= wanted.take(0));
    while take > 0
        invariant
            take <= n,
            n == words@.len(),
            w == text::texts(words@),
            w.len() == n,
            wanted == narrowings(w),
            text::texts(out@) == wanted.take(n - take),
        decreases take,
    {
        let mut some: Vec<String> = Vec::new();
        let mut i: usize = 0;
        while i < take
            invariant
                i <= take <= n,
                n == words@.len(),
                w == text::texts(words@),
                text::texts(some@) =~= w.take(i as int),
            decreases take - i,
        {
            some.push(words[i].clone());
            assert(w.take(i + 1) =~= w.take(i as int).push(w[i as int]));
            i = i + 1;
        }
        out.push(text::join(&some, " "));
        assert(wanted.take(n - take + 1) =~= wanted.take(n - take).push(wanted[n - take]));
        take = take - 1;
    }
    assert(wanted.take(n as int) =~= wanted);
    out
}

/// What is searched for has at least one word and at most three.
pub proof fn law_term_is_one_to_three_words(raw: Seq<char>)
    ensures
        search_term(raw) matches Some(t) ==> 1 <= text::words(t).len() <= MAX_TERM_WORDS,
{
    match answer_line(raw) {
        None => {},
        Some(line) => {
            let bare = bare_end(bare_start(line));
            let cleaned = kept(bare, letters_of(bare));
            text::lemma_words_are_words(cleaned);
            match first_words(cleaned) {
                None => {},
                Some(w) => {
                    let s = stripped(w, lowercase_all(w));
                    lemma_stripped(w, lowercase_all(w));
                    assert forall|i: int| 0 <= i < s.len() implies text::is_word(
                        #[trigger] s[i],
                    ) by {
                        assert(s[i] == w[i]);
                        assert(w[i] == text::words(cleaned)[i]);
                    }
                    text::lemma_words_of_joined(s);
                },
            }
        },
    }
}

proof fn lemma_blank_end_of_the_answer(before: Seq<char>, answer: Seq<char>)
    requires
        without_blank_end(answer).len() > 0,
    ensures
        without_blank_end(before + answer) == before + without_blank_end(answer),
    decreases answer.len(),
{
    let all = before + answer;
    assert(all.last() == answer.last());
    assert(all.drop_last() =~= before + answer.drop_last());
    if text::is_space(answer.last()) || is_separator(answer.last()) {
        lemma_blank_end_of_the_answer(before, answer.drop_last());
    }
}

proof fn lemma_tail_of_the_answer(before: Seq<char>, answer: Seq<char>)
    requires
        before.len() > 0,
        is_separator(before.last()),
    ensures
        tail_len(before + answer) == tail_len(answer),
        tail_len(answer) <= answer.len(),
    decreases answer.len(),
{
    let all = before + answer;
    if answer.len() == 0 {
        assert(all =~= before);
    } else {
        assert(all.last() == answer.last());
        assert(all.drop_last() =~= before + answer.drop_last());
        lemma_tail_of_the_answer(before, answer.drop_last());
    }
}

proof fn lemma_blank_answer(before: Seq<char>, answer: Seq<char>)
    requires
        without_blank_end(answer).len() == 0,
    ensures
        without_blank_end(before + answer) == without_blank_end(before),
    decreases answer.len(),
{
    let all = before + answer;
    if answer.len() == 0 {
        assert(all =~= before);
    } else {
        assert(all.last() == answer.last());
        assert(all.drop_last() =~= before + answer.drop_last());
        lemma_blank_answer(before, answer.drop_last());
    }
}

/// A preamble never counts: whatever stands on the lines before an answer that is
/// not blank, by whichever character they end, the words to search for are those
/// of the answer alone. Where nothing but blank lines follows, what stands before
/// them is the answer, and the words are its own.
pub proof fn law_preamble_never_counts(preamble: Seq<char>, end: char, answer: Seq<char>)
    requires
        is_separator(end),
    ensures
        answer_line(preamble.push(end) + answer) == if without_blank_end(answer).len() > 0 {
            answer_line(answer)
        } else {
            answer_line(preamble)
        },
        search_term(preamble.push(end) + answer) == if without_blank_end(answer).len() > 0 {
            search_term(answer)
        } else {
            search_term(preamble)
        },
{
    let before = preamble.push(end);
    let t = without_blank_end(answer);
    if t.len() > 0 {
        lemma_blank_end_of_the_answer(before, answer);
        lemma_tail_of_the_answer(before, t);
        let all = before + t;
        assert(all.skip(all.len() - tail_len(all)) =~= t.skip(t.len() - tail_len(t)));
    } else {
        lemma_blank_answer(before, answer);
        assert(before.drop_last() =~= preamble);
    }
}

/// Taking words off the end of a term that has any leaves at least one, and what
/// is left are its first words.
pub proof fn law_stripping_keeps_a_word(term: Seq<char>)
    requires
        text::words(term).len() > 0,
    ensures
        1 <= text::words(stripped_term(term)).len() <= text::words(term).len(),
        text::words(stripped_term(term)) == text::words(term).take(
            text::words(stripped_term(term)).len() as int,
        ),
{
    let w = text::words(term);
    let s = stripped(w, lowercase_all(w));
    text::lemma_words_are_words(term);
    lemma_stripped(w, lowercase_all(w));
    assert forall|i: int| 0 <= i < s.len() implies text::is_word(#[trigger] s[i]) by {
        assert(s[i] == w[i]);
    }
    text::lemma_words_of_joined(s);
}

/// Each search has one word fewer than the one before it, and those words are
/// the first ones of the term; so no search is tried twice.
pub proof fn law_searches_get_broader(term: Seq<char>, i: int)
    requires
        0 <= i < text::words(term).len(),
    ensures
        narrowings(text::words(term)).len() == text::words(term).len(),
        text::words(narrowings(text::words(term))[i]) == text::words(term).take(
            text::words(term).len() - i,
        ),
{
    let w = text::words(term);
    text::lemma_words_are_words(term);
    let some = w.take(w.len() - i);
    assert forall|k: int| 0 <= k < some.len() implies text::is_word(#[trigger] some[k]) by {
        assert(some[k] == w[k]);
    }
    text::lemma_words_of_joined(some);
}

/// Whether a word is one of several.
pub open spec fn is_one_of(words: Seq<&str>, w: Seq<char>) -> bool {
    exists|i: int| 0 <= i < words.len() && (#[trigger] words[i])@ == w
}

/// All words at the end that must not stand there are taken off, and no others: what
/// is left are the first words, at least one of them; every word behind them is one
/// of those that must not stand at the end, and the last of several that are left is
/// none.
pub proof fn law_no_stopword_at_the_end(words: Seq<Seq<char>>, lowered: Seq<Seq<char>>)
    requires
        words.len() == lowered.len(),
    ensures
        ({
            let n = stripped(words, lowered).len() as int;
            &&& n <= words.len()
            &&& stripped(words, lowered) == words.take(n)
            &&& words.len() > 0 ==> n > 0
            &&& forall|k: int|
                n <= k < words.len() ==> is_one_of(TRAILING_STOPWORDS@, #[trigger] lowered[k])
            &&& n > 1 ==> !is_one_of(TRAILING_STOPWORDS@, lowered[n - 1])
        }),
    decreases words.len(),
{
    lemma_stripped(words, lowered);
    if words.len() > 1 && is_stopword(lowered.last()) {
        law_no_stopword_at_the_end(words.drop_last(), lowered.drop_last());
        let n = stripped(words, lowered).len() as int;
        assert forall|k: int| n <= k < words.len() implies is_one_of(
            TRAILING_STOPWORDS@,
            #[trigger] lowered[k],
        ) by {
            if k < words.len() - 1 {
                assert(lowered.drop_last()[k] == lowered[k]);
            }
        }
        assert(n > 1 ==> lowered.drop_last()[n - 1] == lowered[n - 1]);
    }
}

/// What is searched for never ends with a word that must not stand at the end, unless
/// that is its only word.
pub proof fn law_a_search_ends_well(raw: Seq<char>)
    ensures
        search_term(raw) matches Some(t) ==> (text::words(t).len() > 1 ==> !is_one_of(
            TRAILING_STOPWORDS@,
            text::lowercase(text::words(t).last()),
        )),
{
    if search_term(raw) is Some {
        let line = answer_line(raw)->0;
        let bare = bare_end(bare_start(line));
        let cleaned = kept(bare, letters_of(bare));
        let w = first_words(cleaned)->0;
        lemma_term_words(cleaned);
        let s = stripped(w, lowercase_all(w));
        law_no_stopword_at_the_end(w, lowercase_all(w));
        assert(s.len() > 0 ==> lowercase_all(w)[s.len() - 1] == text::lowercase(s.last()));
    }
}

/// Taking the words off that must not stand at the end of a term: those of its words
/// that go are such words, and the last of several that stay is none.
pub proof fn law_a_stripped_term_ends_well(term: Seq<char>, k: int)
    requires
        text::words(term).len() > 0,
    ensures
        ({
            let w = text::words(term);
            let s = text::words(stripped_term(term));
            &&& s.len() <= k < w.len() ==> is_one_of(TRAILING_STOPWORDS@, text::lowercase(w[k]))
            &&& s.len() > 1 ==> !is_one_of(TRAILING_STOPWORDS@, text::lowercase(s.last()))
        }),
{
    let w = text::words(term);
    let low = lowercase_all(w);
    law_stripping_keeps_a_word(term);
    law_no_stopword_at_the_end(w, low);
    let s = stripped(w, low);
    text::lemma_words_are_words(term);
    assert forall|i: int| 0 <= i < s.len() implies text::is_word(#[trigger] s[i]) by {
        assert(s[i] == w[i]);
    }
    text::lemma_words_of_joined(s);
    assert(s.len() <= k < w.len() ==> low[k] == text::lowercase(w[k]));
    assert(s.len() > 0 ==> low[s.len() - 1] == text::lowercase(s.last()));
}

proof fn lemma_term_words(cleaned: Seq<char>)
    ensures
        first_words(cleaned) matches Some(w) ==> text::words(
            text::joined(stripped(w, lowercase_all(w)), " "@),
        ) == stripped(w, lowercase_all(w)),
{
    if first_words(cleaned) is Some {
        let w = first_words(cleaned)->0;
        let s = stripped(w, lowercase_all(w));
        text::lemma_words_are_words(cleaned);
        lemma_stripped(w, lowercase_all(w));
        assert forall|i: int| 0 <= i < s.len() implies text::is_word(#[trigger] s[i]) by {
            assert(s[i] == w[i]);
            assert(w[i] == text::words(cleaned)[i]);
        }
        text::lemma_words_of_joined(s);
    }
}

proof fn lemma_without_blank_end(s: Seq<char>)
    ensures
        without_blank_end(s).len() <= s.len(),
        without_blank_end(s) == s.take(without_blank_end(s).len() as int),
        without_blank_end(s).len() > 0 ==> !text::is_space(without_blank_end(s).last())
            && !is_separator(without_blank_end(s).last()),
        forall|i: int|
            without_blank_end(s).len() <= i < s.len() ==> text::is_space(#[trigger] s[i])
                || is_separator(s[i]),
    decreases s.len(),
{
    if s.len() > 0 && (text::is_space(s.last()) || is_separator(s.last())) {
        let rest = s.drop_last();
        lemma_without_blank_end(rest);
        let n = without_blank_end(s).len() as int;
        assert(rest.take(n) =~= s.take(n));
        assert forall|i: int| n <= i < s.len() implies text::is_space(#[trigger] s[i])
            || is_separator(s[i]) by {
            if i < s.len() - 1 {
                assert(rest[i] == s[i]);
            }
        }
    } else {
        assert(s.take(s.len() as int) =~= s);
    }
}

proof fn lemma_tail_len(s: Seq<char>)
    ensures
        tail_len(s) <= s.len(),
        forall|i: int| s.len() - tail_len(s) <= i < s.len() ==> !is_separator(#[trigger] s[i]),
        tail_len(s) < s.len() ==> is_separator(s[s.len() - tail_len(s) - 1]),
    decreases s.len(),
{
    if s.len() > 0 && !is_separator(s.last()) {
        let rest = s.drop_last();
        lemma_tail_len(rest);
        assert forall|i: int| s.len() - tail_len(s) <= i < s.len() implies !is_separator(
            #[trigger] s[i],
        ) by {
            if i < s.len() - 1 {
                assert(rest[i] == s[i]);
            }
        }
        assert(tail_len(s) < s.len() ==> rest[rest.len() - tail_len(rest) - 1] == s[s.len()
            - tail_len(s) - 1]);
    }
}

/// Whether a character ends a line, or is white space.
pub open spec fn ends_or_spaces(c: char) -> bool {
    text::is_space(c) || c == '\n' || c == '\r' || c == '\u{0b}' || c == '\u{0c}' || c == '\u{1c}'
        || c == '\u{1d}' || c == '\u{1e}' || c == '\u{85}' || c == '\u{2028}' || c == '\u{2029}'
}

/// Whether a character ends a line.
pub open spec fn ends_a_line(c: char) -> bool {
    c == '\n' || c == '\r' || c == '\u{0b}' || c == '\u{0c}' || c == '\u{1c}' || c == '\u{1d}' || c
        == '\u{1e}' || c == '\u{85}' || c == '\u{2028}' || c == '\u{2029}'
}

/// Whether a piece of an answer, from one place up to another, is its last line that
/// is not blank: it neither begins nor ends with white space and holds no line end;
/// nothing but white space and line ends stands behind it, and nothing but white
/// space between it and the line end, or the beginning, before it.
pub open spec fn is_last_line(raw: Seq<char>, from: int, to: int) -> bool {
    &&& 0 <= from < to <= raw.len()
    &&& !text::is_space(raw[from])
    &&& !text::is_space(raw[to - 1])
    &&& forall|i: int| from <= i < to ==> !ends_a_line(#[trigger] raw[i])
    &&& forall|i: int| to <= i < raw.len() ==> ends_or_spaces(#[trigger] raw[i])
    &&& exists|start: int|
        #![trigger raw.take(start)]
        {
            &&& 0 <= start <= from
            &&& start > 0 ==> ends_a_line(raw[start - 1])
            &&& forall|i: int| start <= i < from ==> text::is_space(#[trigger] raw[i])
        }
}

/// The line of an answer that counts is its last one that is not blank; there is none
/// exactly if the answer holds nothing but white space and line ends.
pub proof fn law_the_last_line_counts(raw: Seq<char>)
    ensures
        match answer_line(raw) {
            Some(line) => exists|from: int, to: int| #[trigger]
                is_last_line(raw, from, to) && line == raw.subrange(from, to),
            None => forall|i: int| 0 <= i < raw.len() ==> ends_or_spaces(#[trigger] raw[i]),
        },
{
    let t = without_blank_end(raw);
    lemma_without_blank_end(raw);
    lemma_tail_len(t);
    if t.len() > 0 {
        let start = t.len() - tail_len(t);
        let rest = t.skip(start);
        text::lemma_trim_start(rest);
        let line = text::trim_start(rest);
        let from = t.len() - line.len();
        let to = t.len() as int;
        assert(tail_len(t) > 0);
        assert(rest.last() == t.last());
        if line.len() == 0 {
            assert(text::is_space(rest[rest.len() - 1]));
            assert(false);
        }
        assert(line[0] == rest[rest.len() - line.len()]);
        assert(line[0] == raw[from]);
        assert(t.last() == raw[to - 1]);
        assert forall|i: int| from <= i < to implies !ends_a_line(#[trigger] raw[i]) by {
            assert(t[i] == raw[i]);
        }
        assert forall|i: int| start <= i < from implies text::is_space(#[trigger] raw[i]) by {
            assert(rest[i - start] == raw[i]);
        }
        assert(start > 0 ==> t[start - 1] == raw[start - 1]);
        let marker = raw.take(start);
        assert(line =~= raw.subrange(from, to));
        assert(is_last_line(raw, from, to));
    }
}

/// Whether a character is decoration: white space, a quotation mark, a dash, a star, a
/// dot, a colon or a bullet.
pub open spec fn decorates(c: char) -> bool {
    text::is_space(c) || c == '"' || c == '\'' || c == '«' || c == '»' || c == '-' || c == '*' || c == '.'
        || c == ':' || c == '•'
}

proof fn lemma_bare_start(s: Seq<char>)
    ensures
        bare_start(s).len() <= s.len(),
        bare_start(s) == s.skip(s.len() - bare_start(s).len()),
        bare_start(s).len() > 0 ==> !is_decoration(bare_start(s)[0]),
        forall|i: int| 0 <= i < s.len() - bare_start(s).len() ==> is_decoration(#[trigger] s[i]),
    decreases s.len(),
{
    if s.len() > 0 && is_decoration(s[0]) {
        let rest = s.skip(1);
        lemma_bare_start(rest);
        let n = bare_start(s).len();
        assert(rest.skip(rest.len() - n) =~= s.skip(s.len() - n));
        assert forall|i: int| 0 <= i < s.len() - n implies is_decoration(#[trigger] s[i]) by {
            if i > 0 {
                assert(rest[i - 1] == s[i]);
            }
        }
    } else {
        assert(s.skip(0) =~= s);
    }
}

proof fn lemma_bare_end(s: Seq<char>)
    ensures
        bare_end(s).len() <= s.len(),
        bare_end(s) == s.take(bare_end(s).len() as int),
        bare_end(s).len() > 0 ==> !is_decoration(bare_end(s).last()),
        forall|i: int| bare_end(s).len() <= i < s.len() ==> is_decoration(#[trigger] s[i]),
    decreases s.len(),
{
    if s.len() > 0 && is_decoration(s.last()) {
        let rest = s.drop_last();
        lemma_bare_end(rest);
        let n = bare_end(s).len() as int;
        assert(rest.take(n) =~= s.take(n));
        assert forall|i: int| n <= i < s.len() implies is_decoration(#[trigger] s[i]) by {
            if i < s.len() - 1 {
                assert(rest[i] == s[i]);
            }
        }
    } else {
        assert(s.take(s.len() as int) =~= s);
    }
}

/// Decoration is taken off both ends of a line, all of it and nothing else: what is
/// left is a piece of the line that neither begins nor ends with decoration, with
/// nothing but decoration around it.
pub proof fn law_decoration_goes(line: Seq<char>)
    ensures
        exists|from: int, to: int|
            #![trigger line.subrange(from, to)]
            {
                &&& 0 <= from <= to <= line.len()
                &&& bare_end(bare_start(line)) == line.subrange(from, to)
                &&& forall|i: int| 0 <= i < from ==> decorates(#[trigger] line[i])
                &&& forall|i: int| to <= i < line.len() ==> decorates(#[trigger] line[i])
                &&& from < to ==> !decorates(line[from]) && !decorates(line[to - 1])
            },
{
    let rest = bare_start(line);
    lemma_bare_start(line);
    lemma_bare_end(rest);
    let bare = bare_end(rest);
    let from = line.len() - rest.len();
    let to = from + bare.len();
    assert(bare =~= line.subrange(from, to));
    assert forall|i: int| to <= i < line.len() implies decorates(#[trigger] line[i]) by {
        assert(rest[i - from] == line[i]);
    }
    if from < to {
        assert(rest[0] == line[from]);
        assert(bare.last() == line[to - 1]);
        assert(bare.len() > 0 && rest.len() > 0);
    }
}

/// Of a line, the letters, the numbers, the white space and the hyphens stay, in their
/// order, and nothing else does.
pub proof fn law_only_words_and_hyphens_stay(line: Seq<char>)
    ensures
        kept(line, letters_of(line)) == line.filter(
            |c: char| text::alphanumeric(c) || text::is_space(c) || c == '-',
        ),
    decreases line.len(),
{
    reveal(Seq::filter);
    if line.len() > 0 {
        law_only_words_and_hyphens_stay(line.drop_last());
        assert(letters_of(line).drop_last() =~= letters_of(line.drop_last()));
    } else {
        assert(line =~= Seq::<char>::empty());
    }
}

/// The words to search for are the first ones of what is left of the answer's last
/// line: three of them, or fewer where there are fewer or where those at the end must
/// not stand there. There are none exactly if nothing is left, or more than sixty
/// characters.
pub proof fn law_the_first_words_are_searched_for(raw: Seq<char>)
    ensures
        search_term(raw) is Some ==> answer_line(raw) is Some,
        answer_line(raw) matches Some(line) ==> {
            let bare = bare_end(bare_start(line));
            let left = bare.filter(
                |c: char| text::alphanumeric(c) || text::is_space(c) || c == '-',
            );
            let w = text::words(left);
            &&& search_term(raw) is Some <==> w.len() > 0 && left.len() <= 60
            &&& search_term(raw) matches Some(t) ==> {
                let found = text::words(t);
                &&& t == text::joined(found, " "@)
                &&& 1 <= found.len() <= 3
                &&& found == w.take(found.len() as int)
                &&& forall|k: int|
                    found.len() <= k < w.len() && k < 3 ==> is_one_of(
                        TRAILING_STOPWORDS@,
                        text::lowercase(#[trigger] w[k]),
                    )
            }
        },
{
    if answer_line(raw) is Some {
        let line = answer_line(raw)->0;
        let bare = bare_end(bare_start(line));
        law_only_words_and_hyphens_stay(bare);
        let left = kept(bare, letters_of(bare));
        let all = text::words(left);
        if search_term(raw) is Some {
            let t = search_term(raw)->0;
            let w = first_words(left)->0;
            let low = lowercase_all(w);
            let s = stripped(w, low);
            lemma_term_words(left);
            law_no_stopword_at_the_end(w, low);
            assert(s =~= all.take(s.len() as int));
            assert forall|k: int| s.len() <= k < all.len() && k < 3 implies is_one_of(
                TRAILING_STOPWORDS@,
                text::lowercase(#[trigger] all[k]),
            ) by {
                assert(w[k] == all[k]);
                assert(low[k] == text::lowercase(all[k]));
            }
        }
    }
}

/// The model is told its part first and then asked about the task, in whose words the
/// task stands whole.
pub proof fn law_the_model_is_asked_about_the_task(task_text: Seq<char>)
    ensures
        ({
            let m = extraction_messages(task_text);
            &&& m.len() == 2
            &&& m[0].role == Role::System
            &&& m[1].role == Role::User
            &&& forall|i: int|
                0 <= i < m.len() ==> (#[trigger] m[i]).tool_calls.len() == 0 && m[i].tool_call_id
                    is None
            &&& exists|at: int|
                #![trigger m[1].content.skip(at)]
                0 <= at && at + task_text.len() <= m[1].content.len() && m[1].content.subrange(
                    at,
                    at + task_text.len(),
                ) == task_text
        }),
{
    let c = extraction_messages(task_text)[1].content;
    let at = "Задача: "@.len() as int;
    let rest = c.skip(at);
    assert(c.subrange(at, at + task_text.len()) =~= task_text);
}

} // verus!
