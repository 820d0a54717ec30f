//! Shell line parsing, kept separate from execution so commands are testable
//! without an interactive terminal.

use crate::text::{append_str, chars_of, is_whitespace, is_ws, string_of, trim, trim_chars};
use vstd::prelude::*;

verus! {

/// One parsed shell command.
#[derive(Debug, PartialEq, Eq)]
pub enum Command {
    Help,
    Status,
    Quit,
    SetDatabase(String),
    SetServer(String),
    ValidateLevels(Option<String>),
    ValidateComponents(Option<String>),
    ValidateCharacters(Option<String>),
    ValidateFaces(Option<String>),
    ValidateBackdrops(Option<String>),
    ValidateSeed(Option<String>),
    ValidateAll,
    ImportLevels(Option<String>),
    ImportComponents(Option<String>),
    ImportCharacters(Option<String>),
    ImportFaces(Option<String>),
    ImportBackdrops(Option<String>),
    ExportComponents(String),
    ImportSeed(Option<String>),
    ImportAll,
}

/// A command with its text arguments as character sequences.
pub enum CommandView {
    Help,
    Status,
    Quit,
    SetDatabase(Seq<char>),
    SetServer(Seq<char>),
    ValidateLevels(Option<Seq<char>>),
    ValidateComponents(Option<Seq<char>>),
    ValidateCharacters(Option<Seq<char>>),
    ValidateFaces(Option<Seq<char>>),
    ValidateBackdrops(Option<Seq<char>>),
    ValidateSeed(Option<Seq<char>>),
    ValidateAll,
    ImportLevels(Option<Seq<char>>),
    ImportComponents(Option<Seq<char>>),
    ImportCharacters(Option<Seq<char>>),
    ImportFaces(Option<Seq<char>>),
    ImportBackdrops(Option<Seq<char>>),
    ExportComponents(Seq<char>),
    ImportSeed(Option<Seq<char>>),
    ImportAll,
}

/// The view of an optional string.
pub open spec fn opt_view(p: Option<String>) -> Option<Seq<char>> {
    match p {
        Some(s) => Some(s@),
        None => None,
    }
}

impl View for Command {
    type V = CommandView;

    open spec fn view(&self) -> CommandView {
        match self {
            Command::Help => CommandView::Help,
            Command::Status => CommandView::Status,
            Command::Quit => CommandView::Quit,
            Command::SetDatabase(s) => CommandView::SetDatabase(s@),
            Command::SetServer(s) => CommandView::SetServer(s@),
            Command::ValidateLevels(p) => CommandView::ValidateLevels(opt_view(*p)),
            Command::ValidateComponents(p) => CommandView::ValidateComponents(opt_view(*p)),
            Command::ValidateCharacters(p) => CommandView::ValidateCharacters(opt_view(*p)),
            Command::ValidateFaces(p) => CommandView::ValidateFaces(opt_view(*p)),
            Command::ValidateBackdrops(p) => CommandView::ValidateBackdrops(opt_view(*p)),
            Command::ValidateSeed(p) => CommandView::ValidateSeed(opt_view(*p)),
            Command::ValidateAll => CommandView::ValidateAll,
            Command::ImportLevels(p) => CommandView::ImportLevels(opt_view(*p)),
            Command::ImportComponents(p) => CommandView::ImportComponents(opt_view(*p)),
            Command::ImportCharacters(p) => CommandView::ImportCharacters(opt_view(*p)),
            Command::ImportFaces(p) => CommandView::ImportFaces(opt_view(*p)),
            Command::ImportBackdrops(p) => CommandView::ImportBackdrops(opt_view(*p)),
            Command::ExportComponents(s) => CommandView::ExportComponents(s@),
            Command::ImportSeed(p) => CommandView::ImportSeed(opt_view(*p)),
            Command::ImportAll => CommandView::ImportAll,
        }
    }
}

/// Why a shell line was refused.
#[derive(Debug, PartialEq, Eq)]
pub enum CommandError {
    /// `set server` / `set database` without a value; holds the trimmed line.
    NeedsValue(String),
    /// More than one path after a content command.
    TooManyPaths,
    /// `export components` without a target directory.
    ExportNeedsDirectory,
    /// Anything else; holds the trimmed line.
    Unknown(String),
}

/// A refusal with its text as a character sequence.
pub enum CommandErrorView {
    NeedsValue(Seq<char>),
    TooManyPaths,
    ExportNeedsDirectory,
    Unknown(Seq<char>),
}

impl View for CommandError {
    type V = CommandErrorView;

    open spec fn view(&self) -> CommandErrorView {
        match self {
            CommandError::NeedsValue(s) => CommandErrorView::NeedsValue(s@),
            CommandError::TooManyPaths => CommandErrorView::TooManyPaths,
            CommandError::ExportNeedsDirectory => CommandErrorView::ExportNeedsDirectory,
            CommandError::Unknown(s) => CommandErrorView::Unknown(s@),
        }
    }
}

/// The text shown for a refusal.
pub open spec fn error_text(e: CommandErrorView) -> Seq<char> {
    match e {
        CommandErrorView::NeedsValue(line) => "'"@ + line + "' needs a value"@,
        CommandErrorView::TooManyPaths => "expected at most one path"@,
        CommandErrorView::ExportNeedsDirectory => "'export components' needs a target directory"@,
        CommandErrorView::Unknown(line) => "unknown command '"@ + line + "'"@,
    }
}

impl CommandError {
    /// The text shown for this refusal.
    pub fn message(&self) -> (m: String)
        ensures
            m@ == error_text(self@),
    {
        let mut m = String::new();
        match self {
            CommandError::NeedsValue(line) => {
                append_str(&mut m, "'");
                append_str(&mut m, line.as_str());
                append_str(&mut m, "' needs a value");
            },
            CommandError::TooManyPaths => {
                append_str(&mut m, "expected at most one path");
            },
            CommandError::ExportNeedsDirectory => {
                append_str(&mut m, "'export components' needs a target directory");
            },
            CommandError::Unknown(line) => {
                append_str(&mut m, "unknown command '");
                append_str(&mut m, line.as_str());
                append_str(&mut m, "'");
            },
        }
        m
    }
}

/// Splitting state after a prefix of the line: the finished words and the
/// word in progress.
pub open spec fn split_state(s: Seq<char>) -> (Seq<Seq<char>>, Seq<char>)
    decreases s.len(),
{
    if s.len() == 0 {
        (Seq::empty(), Seq::empty())
    } else {
        let prev = split_state(s.drop_last());
        let c = s.last();
        if is_ws(c) {
            if prev.1.len() > 0 {
                (prev.0.push(prev.1), Seq::empty())
            } else {
                prev
            }
        } else {
            (prev.0, prev.1.push(c))
        }
    }
}

/// The maximal runs of non-whitespace characters (`str::split_whitespace`).
pub open spec fn words(s: Seq<char>) -> Seq<Seq<char>> {
    let st = split_state(s);
    if st.1.len() > 0 {
        st.0.push(st.1)
    } else {
        st.0
    }
}

/// Which content kind a word names: 1 levels, 2 components, 3 characters,
/// 4 faces, 5 backdrops, 6 seed, 0 none.
pub open spec fn content_kind(w: Seq<char>) -> int {
    if w == "levels"@ {
        1
    } else if w == "components"@ {
        2
    } else if w == "characters"@ {
        3
    } else if w == "faces"@ {
        4
    } else if w == "backdrops"@ {
        5
    } else if w == "seed"@ {
        6
    } else {
        0
    }
}

/// `validate <kind> [path]`.
pub open spec fn validate_command(kind: int, p: Option<Seq<char>>) -> CommandView {
    if kind == 1 {
        CommandView::ValidateLevels(p)
    } else if kind == 2 {
        CommandView::ValidateComponents(p)
    } else if kind == 3 {
        CommandView::ValidateCharacters(p)
    } else if kind == 4 {
        CommandView::ValidateFaces(p)
    } else if kind == 5 {
        CommandView::ValidateBackdrops(p)
    } else {
        CommandView::ValidateSeed(p)
    }
}

/// `import <kind> [path]`.
pub open spec fn import_command(kind: int, p: Option<Seq<char>>) -> CommandView {
    if kind == 1 {
        CommandView::ImportLevels(p)
    } else if kind == 2 {
        CommandView::ImportComponents(p)
    } else if kind == 3 {
        CommandView::ImportCharacters(p)
    } else if kind == 4 {
        CommandView::ImportFaces(p)
    } else if kind == 5 {
        CommandView::ImportBackdrops(p)
    } else {
        CommandView::ImportSeed(p)
    }
}

/// No word is an optional absent path, one word is the path, more is an
/// error.
pub open spec fn optional_path_view(rest: Seq<Seq<char>>) -> Option<Option<Seq<char>>> {
    if rest.len() == 0 {
        Some(None)
    } else if rest.len() == 1 {
        Some(Some(rest[0]))
    } else {
        None
    }
}

/// The command that a line's words denote; `trimmed` is the line without
/// surrounding whitespace, quoted in refusals.
pub open spec fn parse_words(ws: Seq<Seq<char>>, trimmed: Seq<char>) -> Result<
    Option<CommandView>,
    CommandErrorView,
> {
    let n = ws.len();
    if n == 0 {
        Ok(None)
    } else if n == 1 && ws[0] == "help"@ {
        Ok(Some(CommandView::Help))
    } else if n == 1 && ws[0] == "status"@ {
        Ok(Some(CommandView::Status))
    } else if n == 1 && (ws[0] == "quit"@ || ws[0] == "exit"@) {
        Ok(Some(CommandView::Quit))
    } else if n == 3 && ws[0] == "set"@ && ws[1] == "server"@ {
        Ok(Some(CommandView::SetServer(ws[2])))
    } else if n == 3 && ws[0] == "set"@ && ws[1] == "database"@ {
        Ok(Some(CommandView::SetDatabase(ws[2])))
    } else if n == 2 && ws[0] == "set"@ && (ws[1] == "server"@ || ws[1] == "database"@) {
        Err(CommandErrorView::NeedsValue(trimmed))
    } else if n >= 2 && ws[0] == "validate"@ && content_kind(ws[1]) != 0 {
        match optional_path_view(ws.skip(2)) {
            Some(p) => Ok(Some(validate_command(content_kind(ws[1]), p))),
            None => Err(CommandErrorView::TooManyPaths),
        }
    } else if n == 2 && ws[0] == "validate"@ && ws[1] == "all"@ {
        Ok(Some(CommandView::ValidateAll))
    } else if n >= 2 && ws[0] == "import"@ && content_kind(ws[1]) != 0 {
        match optional_path_view(ws.skip(2)) {
            Some(p) => Ok(Some(import_command(content_kind(ws[1]), p))),
            None => Err(CommandErrorView::TooManyPaths),
        }
    } else if n == 2 && ws[0] == "import"@ && ws[1] == "all"@ {
        Ok(Some(CommandView::ImportAll))
    } else if n == 3 && ws[0] == "export"@ && ws[1] == "components"@ {
        Ok(Some(CommandView::ExportComponents(ws[2])))
    } else if n == 2 && ws[0] == "export"@ && ws[1] == "components"@ {
        Err(CommandErrorView::ExportNeedsDirectory)
    } else {
        Err(CommandErrorView::Unknown(trimmed))
    }
}

/// The views of a list of words.
pub open spec fn word_views(ws: Seq<Vec<char>>) -> Seq<Seq<char>> {
    ws.map_values(|w: Vec<char>| w@)
}

fn split_words(line: &Vec<char>) -> (ws: Vec<Vec<char>>)
    ensures
        word_views(ws@) == words(line@),
{
    let mut ws: Vec<Vec<char>> = Vec::new();
    let mut cur: Vec<char> = Vec::new();
    let mut i: usize = 0;
    while i < line.len()
        invariant
            i <= line.len(),
            (word_views(ws@), cur@) == split_state(line@.take(i as int)),
        decreases line.len() - i,
    {
        let c = line[i];
        assert(line@.take(i + 1).drop_last() == line@.take(i as int));
        assert(line@.take(i + 1).last() == c);
        if is_whitespace(c) {
            if cur.len() > 0 {
                let ghost before = ws@;
                let ghost word = cur@;
                ws.push(cur);
                assert(word_views(ws@) =~= word_views(before).push(word));
                cur = Vec::new();
            }
        } else {
            cur.push(c);
        }
        i = i + 1;
    }
    assert(line@.take(line@.len() as int) == line@);
    if cur.len() > 0 {
        let ghost before = ws@;
        let ghost word = cur@;
        ws.push(cur);
        assert(word_views(ws@) =~= word_views(before).push(word));
    }
    ws
}

fn is_word(w: &Vec<char>, lit: &str) -> (b: bool)
    ensures
        b == (w@ == lit@),
{
    let l = chars_of(lit);
    if w.len() != l.len() {
        return false;
    }
    let mut i: usize = 0;
    while i < w.len()
        invariant
            i <= w.len(),
            w@.len() == l@.len(),
            l@ == lit@,
            forall|j: int| 0 <= j < i ==> w@[j] == l@[j],
        decreases w.len() - i,
    {
        if w[i] != l[i] {
            return false;
        }
        i = i + 1;
    }
    assert(w@ =~= l@);
    true
}

fn content_kind_of(w: &Vec<char>) -> (k: u8)
    ensures
        k as int == content_kind(w@),
{
    if is_word(w, "levels") {
        1
    } else if is_word(w, "components") {
        2
    } else if is_word(w, "characters") {
        3
    } else if is_word(w, "faces") {
        4
    } else if is_word(w, "backdrops") {
        5
    } else if is_word(w, "seed") {
        6
    } else {
        0
    }
}

fn optional_path(rest: &[Vec<char>]) -> (r: Option<Option<String>>)
    ensures
        match r {
            Some(p) => optional_path_view(word_views(rest@)) == Some(opt_view(p)),
            None => optional_path_view(word_views(rest@)) is None,
        },
{
    if rest.len() == 0 {
        Some(None)
    } else if rest.len() == 1 {
        Some(Some(string_of(&rest[0])))
    } else {
        None
    }
}

fn tail(ws: &Vec<Vec<char>>) -> (rest: &[Vec<char>])
    requires
        ws@.len() >= 2,
    ensures
        word_views(rest@) == word_views(ws@).skip(2),
{
    let all = ws.as_slice();
    let rest = &all[2..ws.len()];
    assert(word_views(rest@) =~= word_views(ws@).skip(2));
    rest
}

fn validate_of(kind: u8, p: Option<String>) -> (c: Command)
    requires
        1 <= kind <= 6,
    ensures
        c@ == validate_command(kind as int, opt_view(p)),
{
    if kind == 1 {
        Command::ValidateLevels(p)
    } else if kind == 2 {
        Command::ValidateComponents(p)
    } else if kind == 3 {
        Command::ValidateCharacters(p)
    } else if kind == 4 {
        Command::ValidateFaces(p)
    } else if kind == 5 {
        Command::ValidateBackdrops(p)
    } else {
        Command::ValidateSeed(p)
    }
}

fn import_of(kind: u8, p: Option<String>) -> (c: Command)
    requires
        1 <= kind <= 6,
    ensures
        c@ == import_command(kind as int, opt_view(p)),
{
    if kind == 1 {
        Command::ImportLevels(p)
    } else if kind == 2 {
        Command::ImportComponents(p)
    } else if kind == 3 {
        Command::ImportCharacters(p)
    } else if kind == 4 {
        Command::ImportFaces(p)
    } else if kind == 5 {
        Command::ImportBackdrops(p)
    } else {
        Command::ImportSeed(p)
    }
}

/// The view of a parse result.
pub open spec fn parse_result_view(r: Result<Option<Command>, CommandError>) -> Result<
    Option<CommandView>,
    CommandErrorView,
> {
    match r {
        Ok(Some(c)) => Ok(Some(c@)),
        Ok(None) => Ok(None),
        Err(e) => Err(e@),
    }
}

/// Parse one input line. `Ok(None)` means an empty line to ignore.
pub fn parse_line(line: &str) -> (res: Result<Option<Command>, CommandError>)
    ensures
        parse_result_view(res) == parse_words(words(line@), trim(line@)),
{
    let chars = chars_of(line);
    let ws = split_words(&chars);
    let ghost wv = word_views(ws@);
    let n = ws.len();
    proof {
        assert forall|i: int| 0 <= i < n implies wv[i] == ws@[i]@ by {}
    }
    if n == 0 {
        return Ok(None);
    }
    if n == 1 && is_word(&ws[0], "help") {
        return Ok(Some(Command::Help));
    }
    if n == 1 && is_word(&ws[0], "status") {
        return Ok(Some(Command::Status));
    }
    if n == 1 && (is_word(&ws[0], "quit") || is_word(&ws[0], "exit")) {
        return Ok(Some(Command::Quit));
    }
    if n == 3 && is_word(&ws[0], "set") && is_word(&ws[1], "server") {
        return Ok(Some(Command::SetServer(string_of(&ws[2]))));
    }
    if n == 3 && is_word(&ws[0], "set") && is_word(&ws[1], "database") {
        return Ok(Some(Command::SetDatabase(string_of(&ws[2]))));
    }
    if n == 2 && is_word(&ws[0], "set") && (is_word(&ws[1], "server") || is_word(
        &ws[1],
        "database",
    )) {
        return Err(CommandError::NeedsValue(string_of(&trim_chars(&chars))));
    }
    if n >= 2 && is_word(&ws[0], "validate") {
        let kind = content_kind_of(&ws[1]);
        if kind != 0 {
            return match optional_path(tail(&ws)) {
                Some(p) => Ok(Some(validate_of(kind, p))),
                None => Err(CommandError::TooManyPaths),
            };
        }
    }
    if n == 2 && is_word(&ws[0], "validate") && is_word(&ws[1], "all") {
        return Ok(Some(Command::ValidateAll));
    }
    if n >= 2 && is_word(&ws[0], "import") {
        let kind = content_kind_of(&ws[1]);
        if kind != 0 {
            return match optional_path(tail(&ws)) {
                Some(p) => Ok(Some(import_of(kind, p))),
                None => Err(CommandError::TooManyPaths),
            };
        }
    }
    if n == 2 && is_word(&ws[0], "import") && is_word(&ws[1], "all") {
        return Ok(Some(Command::ImportAll));
    }
    if n == 3 && is_word(&ws[0], "export") && is_word(&ws[1], "components") {
        return Ok(Some(Command::ExportComponents(string_of(&ws[2]))));
    }
    if n == 2 && is_word(&ws[0], "export") && is_word(&ws[1], "components") {
        return Err(CommandError::ExportNeedsDirectory);
    }
    Err(CommandError::Unknown(string_of(&trim_chars(&chars))))
}

} // verus!
