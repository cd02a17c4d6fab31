//! The interactive shell's own logic: the query and context it holds, what
//! each slash command answers, and the completion, hint and highlighting of
//! slash commands. Reading lines and dispatching commands happen outside.

use vstd::prelude::*;
use vstd::string::StringSliceAdditionalSpecFns;
use vstd::utf8::*;

use crate::protocol::{bytes_text, split_text};
use crate::text::{
    chars_of, decimal, find_first_of, first_of, is_whitespace, parse_usize, push_decimal,
    spec_parse_usize, starts_with, string_of, sub_chars, trim, trim_chars,
};

verus! {

broadcast use vstd::utf8::group_utf8_lib;

/// The text of an optional command argument; empty when it is absent.
pub open spec fn arg_text(primary: Option<Seq<char>>) -> Seq<char> {
    match primary {
        Some(t) => t,
        None => Seq::empty(),
    }
}

/// The text of an optional command argument; empty when it is absent.
fn arg_string(primary: Option<&str>) -> (s: String)
    ensures
        s@ == arg_text(primary.deep_view()),
{
    match primary {
        Some(t) => String::from_str(t),
        None => String::new(),
    }
}

/// What the shell holds between commands.
pub struct ReplState {
    pub query: Option<String>,
    pub context: Option<String>,
}

/// The byte length of a text.
pub open spec fn byte_len(s: Seq<char>) -> nat {
    encode_utf8(s).len()
}

/// The `/status` report.
pub open spec fn status_text(query: Option<Seq<char>>, context: Option<Seq<char>>) -> Seq<char> {
    let q = match query {
        Some(q) => q,
        None => "(not set)"@,
    };
    let c = match context {
        Some(c) => "("@ + decimal(byte_len(c)) + " bytes)"@,
        None => "(not set)"@,
    };
    "query:   "@ + q + "\ncontext: "@ + c + "\n"@
}

/// The `/help` text.
pub const HELP_TEXT: &'static str = "/query(<text>)          Set the query to run
/context(<text>)        Set context inline
/context-file(<path>)   Load context from a file
/run                    Execute the RLM with current query + context
/status                 Show current query and context
/clear                  Reset query and context
/help                   Show this message
/quit                   Exit
";

/// The error of `/run` without a query.
pub const NO_QUERY: &'static str = "no query set — use /query(<text>) first";

/// The error of `/context-file` without a path.
pub const NO_PATH: &'static str = "/context-file requires a path";

impl Default for ReplState {
    fn default() -> (s: Self)
        ensures
            s.query is None,
            s.context is None,
    {
        ReplState { query: None, context: None }
    }
}

impl ReplState {
    /// `/query(<text>)`: sets the query (empty without an argument).
    pub fn set_query(&mut self, primary: Option<&str>) -> (out: String)
        ensures
            final(self).query.deep_view() == Some(arg_text(primary.deep_view())),
            final(self).context == old(self).context,
            out@ == "query set: "@ + arg_text(primary.deep_view()) + "\n"@,
    {
        let q = arg_string(primary);
        let mut out = String::from_str("query set: ");
        out.append(q.as_str());
        out.append("\n");
        self.query = Some(q);
        out
    }

    /// `/context(<text>)`: sets the context inline (empty without an argument).
    pub fn set_context(&mut self, primary: Option<&str>) -> (out: String)
        ensures
            final(self).context.deep_view() == Some(arg_text(primary.deep_view())),
            final(self).query == old(self).query,
            out@ == "context set ("@ + decimal(byte_len(arg_text(primary.deep_view())))
                + " bytes)\n"@,
    {
        let ctx = arg_string(primary);
        let mut out = String::from_str("context set (");
        push_decimal(&mut out, ctx.as_str().as_bytes().len());
        out.append(" bytes)\n");
        self.context = Some(ctx);
        out
    }

    /// `/context-file(<path>)` once the file is read: sets the context to its content.
    pub fn load_context(&mut self, content: String) -> (out: String)
        ensures
            final(self).context.deep_view() == Some(content@),
            final(self).query == old(self).query,
            out@ == "context loaded ("@ + decimal(byte_len(content@)) + " bytes)\n"@,
    {
        let mut out = String::from_str("context loaded (");
        push_decimal(&mut out, content.as_str().as_bytes().len());
        out.append(" bytes)\n");
        self.context = Some(content);
        out
    }

    /// `/status`: the query and the context's size.
    pub fn status(&self) -> (out: String)
        ensures
            out@ == status_text(self.query.deep_view(), self.context.deep_view()),
    {
        let mut out = String::from_str("query:   ");
        match &self.query {
            Some(q) => out.append(q.as_str()),
            None => out.append("(not set)"),
        }
        out.append("\ncontext: ");
        match &self.context {
            Some(c) => {
                out.append("(");
                push_decimal(&mut out, c.as_str().as_bytes().len());
                out.append(" bytes)");
            },
            None => out.append("(not set)"),
        }
        out.append("\n");
        out
    }

    /// `/clear`: forgets the query and the context.
    pub fn clear(&mut self) -> (out: String)
        ensures
            final(self).query is None,
            final(self).context is None,
            out@ == "cleared\n"@,
    {
        self.query = None;
        self.context = None;
        String::from_str("cleared\n")
    }

    /// What `/run` runs: the query, required, and the context, empty when unset.
    pub fn run_input(&self) -> (r: Result<(String, String), String>)
        ensures
            match r {
                Ok((q, c)) => self.query.deep_view() == Some(q@) && c@ == arg_text(
                    self.context.deep_view(),
                ),
                Err(e) => self.query is None && e@ == NO_QUERY@,
            },
    {
        match &self.query {
            None => Err(String::from_str(NO_QUERY)),
            Some(q) => {
                let c = match &self.context {
                    Some(c) => c.clone(),
                    None => String::new(),
                };
                Ok((q.clone(), c))
            },
        }
    }
}

/// The path of `/context-file(<path>)`, which is required.
pub fn context_file_path(primary: Option<&str>) -> (r: Result<String, String>)
    ensures
        match r {
            Ok(p) => primary.deep_view() == Some(p@),
            Err(e) => primary is None && e@ == NO_PATH@,
        },
{
    match primary {
        Some(p) => Ok(String::from_str(p)),
        None => Err(String::from_str(NO_PATH)),
    }
}

// ---------------------------------------------------------------------------
// /run arguments
// ---------------------------------------------------------------------------

/// One argument of a slash command: `name` or `name(value)`.
pub struct SlashArg {
    pub name: String,
    pub value: Option<String>,
}

/// Whether some argument is named `name`.
pub open spec fn has_arg(args: Seq<SlashArg>, name: Seq<char>) -> bool {
    exists|i: int| 0 <= i < args.len() && (#[trigger] args[i]).name@ == name
}

/// The depth that `/run` uses: the value of the first argument named
/// `depth` when it parses as a number, otherwise 5.
pub open spec fn run_depth(args: Seq<SlashArg>) -> usize
    decreases args.len(),
{
    if args.len() == 0 {
        5
    } else if args[0].name@ == "depth"@ {
        match args[0].value {
            Some(v) => match spec_parse_usize(v@) {
                Some(n) => n,
                None => 5,
            },
            None => 5,
        }
    } else {
        run_depth(args.drop_first())
    }
}

/// The options of `/run`: whether it is verbose, and its maximum depth.
pub fn run_options(args: &Vec<SlashArg>) -> (r: (bool, usize))
    ensures
        r.0 == has_arg(args@, "verbose"@),
        r.1 == run_depth(args@),
{
    let verbose_name = String::from_str("verbose");
    let depth_name = String::from_str("depth");
    let mut verbose = false;
    let mut i: usize = 0;
    while i < args.len()
        invariant
            i <= args.len(),
            verbose_name@ == "verbose"@,
            verbose == exists|j: int| 0 <= j < i && (#[trigger] args@[j]).name@ == "verbose"@,
        decreases args.len() - i,
    {
        if args[i].name == verbose_name {
            verbose = true;
        }
        i = i + 1;
    }
    let mut depth: usize = 5;
    let mut k: usize = 0;
    assert(args@.skip(0) =~= args@);
    while k < args.len()
        invariant
            k <= args.len(),
            depth_name@ == "depth"@,
            run_depth(args@) == run_depth(args@.skip(k as int)),
            verbose == has_arg(args@, "verbose"@),
            depth == 5,
        decreases args.len() - k,
    {
        if args[k].name == depth_name {
            let d = match &args[k].value {
                Some(v) => match parse_usize(v.as_str()) {
                    Some(n) => n,
                    None => 5,
                },
                None => 5,
            };
            return (verbose, d);
        }
        assert(args@.skip(k as int).drop_first() =~= args@.skip(k + 1));
        k = k + 1;
    }
    (verbose, depth)
}

// ---------------------------------------------------------------------------
// Input lines
// ---------------------------------------------------------------------------

/// What a line typed at the prompt asks for.
pub enum LineKind {
    /// Nothing: the line is blank.
    Blank,
    /// Leave the shell (`/quit` or `/exit`).
    Quit,
    /// Run this command line (the line without surrounding whitespace).
    Command(String),
}

/// Classifies a line typed at the prompt.
pub fn classify_line(line: &str) -> (k: LineKind)
    ensures
        match k {
            LineKind::Blank => trim(line@).len() == 0,
            LineKind::Quit => trim(line@) == "/quit"@ || trim(line@) == "/exit"@,
            LineKind::Command(c) => c@ == trim(line@) && trim(line@).len() != 0 && trim(line@)
                != "/quit"@ && trim(line@) != "/exit"@,
        },
{
    let t = trim_chars(&chars_of(line));
    let t = string_of(&t);
    if t.as_str().is_empty() {
        return LineKind::Blank;
    }
    let quit = String::from_str("/quit");
    let exit = String::from_str("/exit");
    if t == quit || t == exit {
        LineKind::Quit
    } else {
        LineKind::Command(t)
    }
}

// ---------------------------------------------------------------------------
// Slash command metadata: completion, hints, highlighting
// ---------------------------------------------------------------------------

/// The slash commands with their argument signatures and descriptions.
pub open spec fn commands() -> Seq<(Seq<char>, Seq<char>)> {
    seq![
        ("/query(<text>)"@, "Set the query to run"@),
        ("/context(<text>)"@, "Set context inline"@),
        ("/context-file(<path>)"@, "Load context from a file"@),
        ("/run"@, "Execute the RLM with current query + context"@),
        ("/status"@, "Show current query and context"@),
        ("/clear"@, "Reset query and context"@),
        ("/help"@, "Show available commands"@),
        ("/quit"@, "Exit the REPL"@),
    ]
}

/// The slash commands with their argument signatures and descriptions.
pub fn command_table() -> (t: Vec<(&'static str, &'static str)>)
    ensures
        t@.map_values(|p: (&str, &str)| (p.0@, p.1@)) == commands(),
{
    let mut t: Vec<(&'static str, &'static str)> = Vec::new();
    t.push(("/query(<text>)", "Set the query to run"));
    t.push(("/context(<text>)", "Set context inline"));
    t.push(("/context-file(<path>)", "Load context from a file"));
    t.push(("/run", "Execute the RLM with current query + context"));
    t.push(("/status", "Show current query and context"));
    t.push(("/clear", "Reset query and context"));
    t.push(("/help", "Show available commands"));
    t.push(("/quit", "Exit the REPL"));
    assert(t@.map_values(|p: (&str, &str)| (p.0@, p.1@)) =~= commands());
    t
}

/// A command's name without its argument signature: `/query(<text>)` → `/query`.
pub open spec fn bare_name(cmd: Seq<char>) -> Seq<char> {
    cmd.take(first_of(cmd, '(', '(') as int)
}

/// A command's name without its argument signature.
fn bare_chars(cmd: &str) -> (v: Vec<char>)
    ensures
        v@ == bare_name(cmd@),
{
    let c = chars_of(cmd);
    let k = find_first_of(&c, '(', '(');
    proof {
        crate::text::lemma_first_of(c@, '(', '(');
    }
    sub_chars(&c, 0, k)
}

/// A completion offered for the text before the cursor.
pub struct Completion {
    /// The bare command name that replaces the text before the cursor.
    pub value: String,
    /// What the command does.
    pub description: String,
}

/// The completions of `prefix`: for each command whose name (with or
/// without its signature) starts with `prefix`, in order, its bare name and
/// its description.
pub open spec fn completions(cmds: Seq<(Seq<char>, Seq<char>)>, prefix: Seq<char>) -> Seq<
    (Seq<char>, Seq<char>),
>
    decreases cmds.len(),
{
    if cmds.len() == 0 {
        Seq::empty()
    } else {
        let rest = completions(cmds.drop_last(), prefix);
        let (cmd, desc) = cmds.last();
        if prefix.is_prefix_of(bare_name(cmd)) || prefix.is_prefix_of(cmd) {
            rest.push((bare_name(cmd), desc))
        } else {
            rest
        }
    }
}

/// Whether `line` starts with `/`.
pub open spec fn is_slash_line(line: Seq<char>) -> bool {
    line.len() > 0 && line[0] == '/'
}

/// The completions for `line` with the cursor at byte `pos`: none unless the
/// line starts with `/`; otherwise those of the text before the cursor.
pub fn complete(line: &str, pos: usize) -> (r: Vec<Completion>)
    requires
        is_slash_line(line@) ==> is_char_boundary(line.spec_bytes(), pos as int),
    ensures
        r@.map_values(|c: Completion| (c.value@, c.description@)) == (if is_slash_line(line@) {
            completions(commands(), bytes_text(line.spec_bytes(), 0, pos as int))
        } else {
            Seq::empty()
        }),
{
    let mut r: Vec<Completion> = Vec::new();
    let chars = chars_of(line);
    if chars.len() == 0 || chars[0] != '/' {
        assert(r@.map_values(|c: Completion| (c.value@, c.description@)) =~= Seq::empty());
        return r;
    }
    let (before, _) = split_text(line, pos);
    let prefix = chars_of(before);
    let table = command_table();
    let ghost cmds = commands();
    let mut i: usize = 0;
    while i < table.len()
        invariant
            i <= table.len(),
            prefix@ == bytes_text(line.spec_bytes(), 0, pos as int),
            cmds == commands(),
            table@.map_values(|p: (&str, &str)| (p.0@, p.1@)) == cmds,
            r@.map_values(|c: Completion| (c.value@, c.description@)) == completions(
                cmds.take(i as int),
                prefix@,
            ),
        decreases table.len() - i,
    {
        let (cmd, desc) = table[i];
        assert(cmds[i as int] == (cmd@, desc@));
        let full = chars_of(cmd);
        let bare = bare_chars(cmd);
        let ghost before_r = r@;
        if starts_with(&bare, &prefix) || starts_with(&full, &prefix) {
            r.push(Completion { value: string_of(&bare), description: String::from_str(desc) });
            assert(r@.map_values(|c: Completion| (c.value@, c.description@)) =~= before_r.map_values(
                |c: Completion| (c.value@, c.description@),
            ).push((bare_name(cmd@), desc@)));
        }
        assert(cmds.take(i + 1).drop_last() =~= cmds.take(i as int));
        i = i + 1;
    }
    assert(cmds.take(i as int) =~= cmds);
    r
}

/// The hint for `line`: the rest of the first command name that `line`
/// begins and that is longer than it; nothing when the line does not start
/// with `/`, is a lone `/`, or begins no name.
pub open spec fn hint_among(cmds: Seq<(Seq<char>, Seq<char>)>, line: Seq<char>) -> Seq<char>
    decreases cmds.len(),
{
    if cmds.len() == 0 {
        Seq::empty()
    } else {
        let bare = bare_name(cmds[0].0);
        if line.is_prefix_of(bare) && bare.len() > line.len() {
            bare.skip(line.len() as int)
        } else {
            hint_among(cmds.drop_first(), line)
        }
    }
}

/// The hint shown after `line`.
pub open spec fn spec_hint(line: Seq<char>) -> Seq<char> {
    if !is_slash_line(line) || line.len() < 2 {
        Seq::empty()
    } else {
        hint_among(commands(), line)
    }
}

/// A hint: the text completed, and the text shown (dimmed when colours are on).
pub struct Hint {
    pub hint: String,
    pub shown: String,
}

/// The hint for `line`, as kept for completion and as shown on screen.
pub fn hint(line: &str, use_ansi_coloring: bool) -> (h: Hint)
    ensures
        h.hint@ == spec_hint(line@),
        h.shown@ == (if use_ansi_coloring && spec_hint(line@).len() != 0 {
            "\x1b[2m"@ + spec_hint(line@) + "\x1b[0m"@
        } else {
            spec_hint(line@)
        }),
{
    let l = chars_of(line);
    let empty = Hint { hint: String::new(), shown: String::new() };
    if l.len() < 2 || l[0] != '/' {
        return empty;
    }
    let table = command_table();
    let ghost cmds = commands();
    let mut i: usize = 0;
    assert(cmds.skip(0) =~= cmds);
    while i < table.len()
        invariant
            i <= table.len(),
            l@ == line@,
            l@.len() >= 2 && l@[0] == '/',
            cmds == commands(),
            table@.map_values(|p: (&str, &str)| (p.0@, p.1@)) == cmds,
            spec_hint(line@) == hint_among(cmds.skip(i as int), l@),
        decreases table.len() - i,
    {
        let (cmd, _) = table[i];
        assert(cmds[i as int].0 == cmd@);
        let bare = bare_chars(cmd);
        if starts_with(&bare, &l) && bare.len() > l.len() {
            let rest = sub_chars(&bare, l.len(), bare.len());
            assert(rest@ =~= bare@.skip(l@.len() as int));
            let h = string_of(&rest);
            let shown = if use_ansi_coloring && rest.len() != 0 {
                let mut s = String::from_str("\x1b[2m");
                s.append(h.as_str());
                s.append("\x1b[0m");
                s
            } else {
                h.clone()
            };
            return Hint { hint: h, shown };
        }
        assert(cmds.skip(i as int).drop_first() =~= cmds.skip(i + 1));
        i = i + 1;
    }
    assert(cmds.skip(i as int) =~= Seq::<(Seq<char>, Seq<char>)>::empty());
    empty
}

/// Index of the first `(` or whitespace character of `s`, or its length.
pub open spec fn token_end(s: Seq<char>) -> nat
    decreases s.len(),
{
    if s.len() == 0 {
        0
    } else if s[0] == '(' || is_whitespace(s[0]) {
        0
    } else {
        1 + token_end(s.drop_first())
    }
}

/// The part of a hint up to its first `(` or whitespace: the next word that
/// accepting one token of the hint inserts.
pub fn next_hint_token(hint: &str) -> (t: String)
    ensures
        t@ == hint@.take(token_end(hint@) as int),
{
    let v = chars_of(hint);
    let mut i: usize = 0;
    assert(v@.skip(0) =~= v@);
    while i < v.len() && v[i] != '(' && !crate::text::char_is_whitespace(v[i])
        invariant
            i <= v.len(),
            token_end(v@) == i + token_end(v@.skip(i as int)),
        decreases v.len() - i,
    {
        assert(v@.skip(i as int).drop_first() =~= v@.skip(i + 1));
        i = i + 1;
    }
    proof {
        lemma_token_end(v@);
    }
    string_of(&sub_chars(&v, 0, i))
}

proof fn lemma_token_end(s: Seq<char>)
    ensures
        token_end(s) <= s.len(),
    decreases s.len(),
{
    if s.len() > 0 {
        lemma_token_end(s.drop_first());
    }
}

/// How a line is highlighted: a line starting with `/` splits into the
/// command name (up to the first `(` or space) and the rest; any other line
/// stays whole.
pub open spec fn spec_highlight(line: Seq<char>) -> Option<(Seq<char>, Seq<char>)> {
    if is_slash_line(line) {
        let k = first_of(line, '(', ' ') as int;
        Some((line.take(k), line.skip(k)))
    } else {
        None
    }
}

/// The command name and the rest of a line starting with `/`; `None` for
/// any other line.
pub fn highlight_parts(line: &str) -> (r: Option<(String, String)>)
    ensures
        r.deep_view() == spec_highlight(line@),
{
    let v = chars_of(line);
    if v.len() == 0 || v[0] != '/' {
        return None;
    }
    let k = find_first_of(&v, '(', ' ');
    proof {
        crate::text::lemma_first_of(v@, '(', ' ');
    }
    let head = string_of(&sub_chars(&v, 0, k));
    let tail = string_of(&sub_chars(&v, k, v.len()));
    assert(v@.subrange(k as int, v@.len() as int) =~= v@.skip(k as int));
    Some((head, tail))
}

} // verus!
