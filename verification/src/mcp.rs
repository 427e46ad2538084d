//! Tool servers: how one is configured, and what its answers mean.

use crate::model_backend::ToolSpec;
use crate::text;
use vstd::prelude::*;

verus! {

broadcast use text::texts_push;

/// The variables that silence a server's telemetry, each set to `1` before the
/// server is started.
pub const TELEMETRY_KILL_SWITCHES: [&'static str; 3] = [
    "DISABLE_TELEMETRY",
    "BLENDER_MCP_DISABLE_TELEMETRY",
    "MCP_DISABLE_TELEMETRY",
];

/// How a tool server is started, and which of its tools need no asking.
#[derive(Debug, Clone)]
pub struct McpServerConfig {
    pub command: String,
    pub args: Vec<String>,
    /// The tools that may be called without asking.
    pub auto_approve: Vec<String>,
}

impl McpServerConfig {
    /// A server started without arguments, every call of which is asked about.
    pub fn new(command: String) -> (r: Self)
        ensures
            r.command == command,
            r.args@.len() == 0,
            r.auto_approve@.len() == 0,
    {
        McpServerConfig { command, args: Vec::new(), auto_approve: Vec::new() }
    }

    /// The server's name: the one it gave itself, else the command.
    pub fn server_name(&self, reported: Option<String>) -> (r: String)
        ensures
            r@ == match reported {
                Some(name) => name@,
                None => self.command@,
            },
    {
        match reported {
            Some(name) => name,
            None => self.command.clone(),
        }
    }
}

/// The tools of a server, gathered page by page.
pub struct ToolPages {
    pub specs: Vec<ToolSpec>,
}

impl ToolPages {
    /// No page yet.
    pub fn new() -> (r: Self)
        ensures
            r.specs@.len() == 0,
    {
        ToolPages { specs: Vec::new() }
    }

    /// Takes a page in, and says which page to ask for next; none after the
    /// last.
    pub fn add_page(&mut self, page: Vec<ToolSpec>, next_cursor: Option<String>) -> (r: Option<String>)
        ensures
            final(self).specs@ == old(self).specs@ + page@,
            r == next_cursor,
    {
        let mut page = page;
        self.specs.append(&mut page);
        next_cursor
    }
}

/// What stands for a part of an answer that is not text.
pub open spec fn part_text(part: Option<String>) -> Seq<char> {
    match part {
        Some(t) => t@,
        None => "[не-текстовая часть ответа инструмента опущена]"@,
    }
}

/// The text of an answer: its parts, each in lines of its own.
pub open spec fn reply_text(parts: Seq<Option<String>>, is_error: bool) -> Seq<char> {
    let joined = if parts.len() == 0 {
        "[инструмент вернул пустой результат]"@
    } else {
        text::joined(parts.map_values(|p: Option<String>| part_text(p)), "\n"@)
    };
    if is_error {
        "ОШИБКА ИНСТРУМЕНТА: "@ + joined
    } else {
        joined
    }
}

/// Puts a tool's answer into one text for the model. A part that is not text is
/// mentioned, an empty answer is called empty, and an answer that reports an
/// error is marked as one.
pub fn tool_reply(parts: Vec<Option<String>>, is_error: Option<bool>) -> (r: String)
    ensures
        r@ == reply_text(parts@, is_error == Some(true)),
{
    let failed: bool = match is_error {
        Some(b) => b,
        None => false,
    };
    let ghost wanted = parts@.map_values(|p: Option<String>| part_text(p));
    let mut lines: Vec<String> = Vec::new();
    let mut i: usize = 0;
    assert(text::texts(lines@) =~= wanted.take(0));
    while i < parts.len()
        invariant
            i <= parts@.len(),
            wanted == parts@.map_values(|p: Option<String>| part_text(p)),
            text::texts(lines@) == wanted.take(i as int),
        decreases parts@.len() - i,
    {
        match &parts[i] {
            Some(t) => {
                lines.push(t.clone());
            },
            None => {
                lines.push(String::from_str("[не-текстовая часть ответа инструмента опущена]"));
            },
        }
        assert(wanted.take(i + 1) =~= wanted.take(i as int).push(wanted[i as int]));
        i = i + 1;
    }
    assert(wanted.take(wanted.len() as int) =~= wanted);
    let joined = if lines.len() == 0 {
        String::from_str("[инструмент вернул пустой результат]")
    } else {
        text::join(&lines, "\n")
    };
    assert(lines@.len() == text::texts(lines@).len());
    if failed {
        let mut s = String::from_str("ОШИБКА ИНСТРУМЕНТА: ");
        s.append(joined.as_str());
        s
    } else {
        joined
    }
}

/// A tool's answer is handed on whole: its parts in their order, each in lines of its
/// own, with a mention of those that are not text; an empty answer is called empty, and
/// one that reports an error is the same text behind a mark.
pub proof fn law_an_answer_is_handed_on_whole(parts: Seq<Option<String>>, next: Option<String>)
    ensures
        reply_text(Seq::empty(), false) == "[инструмент вернул пустой результат]"@,
        parts.len() == 0 ==> reply_text(parts.push(next), false) == match next {
            Some(t) => t@,
            None => "[не-текстовая часть ответа инструмента опущена]"@,
        },
        parts.len() > 0 ==> reply_text(parts.push(next), false) == reply_text(parts, false) + "\n"@
            + match next {
            Some(t) => t@,
            None => "[не-текстовая часть ответа инструмента опущена]"@,
        },
        reply_text(parts, true) == "ОШИБКА ИНСТРУМЕНТА: "@ + reply_text(parts, false),
{
    let f = |p: Option<String>| part_text(p);
    assert(parts.push(next).map_values(f) =~= parts.map_values(f).push(part_text(next)));
    assert(parts.push(next).map_values(f).drop_last() =~= parts.map_values(f));
}

} // verus!
