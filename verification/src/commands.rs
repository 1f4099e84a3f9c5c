//! REPL commands: how an input line is recognised, and the decisions the
//! command handlers make before they act.
use vstd::prelude::*;

use crate::message::{role_of, summarizable, summarize_message, summary_of, AgentMessage};
use crate::text::{
    append_chars, is_ws, token_len, trim_start, chars_of, dec, decimal, first_line, first_line_end, first_word, first_word_of,
    has_prefix_lit, is_lit, lines, lines_of, slice_to_vec, starts_with, string_of,
    strip_all_prefix, strip_all_prefix_index, trim, trim_bounds, trimmed, truncate_chars,
    truncated,
};

verus! {

/// Result of executing a REPL command.
#[derive(Debug, PartialEq, Eq, Structural)]
pub enum CommandResult {
    /// Continue the REPL loop (don't send to AI).
    Continue,
    /// Break out of the REPL loop (quit).
    Quit,
    /// Not a command — pass input to the AI.
    NotACommand,
}

/// Which command an input line is.
#[derive(Debug, Clone, Copy, PartialEq, Eq, Structural)]
pub enum CommandKind {
    Quit,
    Help,
    Version,
    Status,
    Tokens,
    Cost,
    Clear,
    ModelShow,
    ModelSwitch,
    ThinkShow,
    ThinkSwitch,
    Save,
    Load,
    Diff,
    Undo,
    Health,
    History,
    Config,
    Compact,
    Context,
    Init,
    Run,
    Unknown,
    NotACommand,
}

/// A recognised input line: its kind and its argument, which is the model
/// name, the thinking level, the session file path, the shell command or the
/// unknown command's name, and empty for the other kinds.
#[derive(Debug)]
pub struct Command {
    pub kind: CommandKind,
    pub arg: String,
}

/// The commands that the REPL knows, as listed by `/help`.
pub open spec fn known_commands() -> Seq<Seq<char>> {
    seq![
        "/help"@,
        "/quit"@,
        "/exit"@,
        "/clear"@,
        "/compact"@,
        "/config"@,
        "/context"@,
        "/cost"@,
        "/init"@,
        "/model"@,
        "/think"@,
        "/status"@,
        "/tokens"@,
        "/save"@,
        "/load"@,
        "/diff"@,
        "/undo"@,
        "/health"@,
        "/retry"@,
        "/run"@,
        "/history"@,
        "/version"@,
    ]
}

/// The first word of `s` is not a known command.
pub open spec fn unknown_command(s: Seq<char>) -> bool {
    !known_commands().contains(first_word(s))
}

/// `s` is a `!` shortcut for `/run`: `!` followed by at least one character.
pub open spec fn bang_command(s: Seq<char>) -> bool {
    s.len() > 1 && s[0] == '!'
}

/// The argument after every leading `prefix`, trimmed.
pub open spec fn arg_after(s: Seq<char>, prefix: Seq<char>) -> Seq<char> {
    trim(strip_all_prefix(s, prefix))
}

/// The session file named after `command` in `s` (once), trimmed, or the
/// default session file when none is named.
pub open spec fn session_path(s: Seq<char>, command: Seq<char>) -> Seq<char> {
    let p = if starts_with(s, command) {
        trim(s.skip(command.len() as int))
    } else {
        seq![]
    };
    if p.len() == 0 {
        "yoyo-session.json"@
    } else {
        p
    }
}

/// The shell command of a `/run <cmd>` or `!<cmd>` line; empty otherwise.
pub open spec fn run_arg(s: Seq<char>) -> Seq<char> {
    if starts_with(s, "/run "@) {
        arg_after(s, "/run "@)
    } else if bang_command(s) {
        trim(s.drop_first())
    } else {
        seq![]
    }
}

/// The kind of command that the line `s` is, checked in this order.
pub open spec fn kind_of(s: Seq<char>) -> CommandKind {
    if s == "/quit"@ || s == "/exit"@ {
        CommandKind::Quit
    } else if s == "/help"@ {
        CommandKind::Help
    } else if s == "/version"@ {
        CommandKind::Version
    } else if s == "/status"@ {
        CommandKind::Status
    } else if s == "/tokens"@ {
        CommandKind::Tokens
    } else if s == "/cost"@ {
        CommandKind::Cost
    } else if s == "/clear"@ {
        CommandKind::Clear
    } else if s == "/model"@ {
        CommandKind::ModelShow
    } else if starts_with(s, "/model "@) {
        if arg_after(s, "/model "@).len() == 0 {
            CommandKind::ModelShow
        } else {
            CommandKind::ModelSwitch
        }
    } else if s == "/think"@ {
        CommandKind::ThinkShow
    } else if starts_with(s, "/think "@) {
        if arg_after(s, "/think "@).len() == 0 {
            CommandKind::ThinkShow
        } else {
            CommandKind::ThinkSwitch
        }
    } else if s == "/save"@ || starts_with(s, "/save "@) {
        CommandKind::Save
    } else if s == "/load"@ || starts_with(s, "/load "@) {
        CommandKind::Load
    } else if s == "/diff"@ {
        CommandKind::Diff
    } else if s == "/undo"@ {
        CommandKind::Undo
    } else if s == "/health"@ {
        CommandKind::Health
    } else if s == "/history"@ {
        CommandKind::History
    } else if s == "/config"@ {
        CommandKind::Config
    } else if s == "/compact"@ {
        CommandKind::Compact
    } else if s == "/context"@ {
        CommandKind::Context
    } else if s == "/init"@ {
        CommandKind::Init
    } else if s == "/run"@ || starts_with(s, "/run "@) || bang_command(s) {
        CommandKind::Run
    } else if s.len() > 0 && s[0] == '/' && unknown_command(s) {
        CommandKind::Unknown
    } else {
        CommandKind::NotACommand
    }
}

/// The argument carried with the command that the line `s` is.
pub open spec fn arg_of(s: Seq<char>) -> Seq<char> {
    match kind_of(s) {
        CommandKind::ModelSwitch => arg_after(s, "/model "@),
        CommandKind::ThinkSwitch => arg_after(s, "/think "@),
        CommandKind::Save => session_path(s, "/save"@),
        CommandKind::Load => session_path(s, "/load"@),
        CommandKind::Run => run_arg(s),
        CommandKind::Unknown => first_word(s),
        _ => seq![],
    }
}

/// What the REPL loop does after a command of kind `k`.
pub open spec fn result_of(k: CommandKind) -> CommandResult {
    match k {
        CommandKind::Quit => CommandResult::Quit,
        CommandKind::NotACommand => CommandResult::NotACommand,
        _ => CommandResult::Continue,
    }
}

/// The default session file.
pub fn default_session_path() -> (r: &'static str)
    ensures
        r@ == "yoyo-session.json"@,
{
    "yoyo-session.json"
}

/// Whether the first word of `input` is not a known command.
pub fn is_unknown_command(input: &str) -> (b: bool)
    ensures
        b == unknown_command(input@),
{
    let v = chars_of(input);
    let w = first_word_of(v.as_slice());
    let known: [&str; 22] = [
        "/help",
        "/quit",
        "/exit",
        "/clear",
        "/compact",
        "/config",
        "/context",
        "/cost",
        "/init",
        "/model",
        "/think",
        "/status",
        "/tokens",
        "/save",
        "/load",
        "/diff",
        "/undo",
        "/health",
        "/retry",
        "/run",
        "/history",
        "/version",
    ];
    assert(known@.map_values(|s: &str| s@) == known_commands());
    let mut i: usize = 0;
    while i < 22
        invariant
            0 <= i <= 22,
            known@.map_values(|s: &str| s@) == known_commands(),
            w@ == first_word(input@),
            forall|k: int| 0 <= k < i ==> known_commands()[k] != w@,
        decreases 22 - i,
    {
        if is_lit(w.as_slice(), known[i]) {
            assert(known_commands()[i as int] == w@);
            return false;
        }
        i = i + 1;
    }
    true
}

/// The argument after every leading `prefix` of `v`, trimmed, as characters.
fn arg_after_of(v: &[char], prefix: &str) -> (r: Vec<char>)
    requires
        prefix@.len() > 0,
    ensures
        r@ == arg_after(v@, prefix@),
{
    let p = chars_of(prefix);
    let i = strip_all_prefix_index(v, p.as_slice());
    let (a, b) = trim_bounds(v, i, v.len());
    assert(v@.subrange(i as int, v@.len() as int) == v@.skip(i as int));
    slice_to_vec(v, a, b)
}

/// The session file named by a `/save` or `/load` line (see [`session_path`]).
pub fn session_path_arg(input: &str, command: &str) -> (r: String)
    ensures
        r@ == session_path(input@, command@),
{
    let v = chars_of(input);
    let c = chars_of(command);
    let mut p: Vec<char> = Vec::new();
    if has_prefix_lit(v.as_slice(), command) {
        let (a, b) = trim_bounds(v.as_slice(), c.len(), v.len());
        assert(v@.subrange(c@.len() as int, v@.len() as int) == v@.skip(c@.len() as int));
        p = slice_to_vec(v.as_slice(), a, b);
    }
    if p.len() == 0 {
        default_session_path().to_owned()
    } else {
        string_of(p.as_slice())
    }
}

/// The shell command of a `/run <cmd>` or `!<cmd>` line (see [`run_arg`]).
pub fn run_command_arg(input: &str) -> (r: String)
    ensures
        r@ == run_arg(input@),
{
    let v = chars_of(input);
    if has_prefix_lit(v.as_slice(), "/run ") {
        proof {
            reveal_strlit("/run ");
        }
        string_of(arg_after_of(v.as_slice(), "/run ").as_slice())
    } else if v.len() > 1 && v[0] == '!' {
        let (a, b) = trim_bounds(v.as_slice(), 1, v.len());
        assert(v@.subrange(1, v@.len() as int) == v@.drop_first());
        string_of(slice_to_vec(v.as_slice(), a, b).as_slice())
    } else {
        String::new()
    }
}

/// The name shown for an unknown command: the first word of the line.
pub fn unknown_command_name(input: &str) -> (r: String)
    ensures
        r@ == first_word(input@),
{
    let v = chars_of(input);
    string_of(first_word_of(v.as_slice()).as_slice())
}

fn command(kind: CommandKind) -> (c: Command)
    ensures
        c.kind == kind,
        c.arg@ == Seq::<char>::empty(),
{
    Command { kind, arg: String::new() }
}

/// Recognises a REPL input line: which command it is and what argument it carries.
pub fn dispatch_command(input: &str) -> (c: Command)
    ensures
        c.kind == kind_of(input@),
        c.arg@ == arg_of(input@),
{
    let v = chars_of(input);
    let s = v.as_slice();
    proof {
        reveal_strlit("/model ");
        reveal_strlit("/think ");
    }
    if is_lit(s, "/quit") || is_lit(s, "/exit") {
        command(CommandKind::Quit)
    } else if is_lit(s, "/help") {
        command(CommandKind::Help)
    } else if is_lit(s, "/version") {
        command(CommandKind::Version)
    } else if is_lit(s, "/status") {
        command(CommandKind::Status)
    } else if is_lit(s, "/tokens") {
        command(CommandKind::Tokens)
    } else if is_lit(s, "/cost") {
        command(CommandKind::Cost)
    } else if is_lit(s, "/clear") {
        command(CommandKind::Clear)
    } else if is_lit(s, "/model") {
        command(CommandKind::ModelShow)
    } else if has_prefix_lit(s, "/model ") {
        let a = arg_after_of(s, "/model ");
        if a.len() == 0 {
            command(CommandKind::ModelShow)
        } else {
            Command { kind: CommandKind::ModelSwitch, arg: string_of(a.as_slice()) }
        }
    } else if is_lit(s, "/think") {
        command(CommandKind::ThinkShow)
    } else if has_prefix_lit(s, "/think ") {
        let a = arg_after_of(s, "/think ");
        if a.len() == 0 {
            command(CommandKind::ThinkShow)
        } else {
            Command { kind: CommandKind::ThinkSwitch, arg: string_of(a.as_slice()) }
        }
    } else if is_lit(s, "/save") || has_prefix_lit(s, "/save ") {
        Command { kind: CommandKind::Save, arg: session_path_arg(input, "/save") }
    } else if is_lit(s, "/load") || has_prefix_lit(s, "/load ") {
        Command { kind: CommandKind::Load, arg: session_path_arg(input, "/load") }
    } else if is_lit(s, "/diff") {
        command(CommandKind::Diff)
    } else if is_lit(s, "/undo") {
        command(CommandKind::Undo)
    } else if is_lit(s, "/health") {
        command(CommandKind::Health)
    } else if is_lit(s, "/history") {
        command(CommandKind::History)
    } else if is_lit(s, "/config") {
        command(CommandKind::Config)
    } else if is_lit(s, "/compact") {
        command(CommandKind::Compact)
    } else if is_lit(s, "/context") {
        command(CommandKind::Context)
    } else if is_lit(s, "/init") {
        command(CommandKind::Init)
    } else if is_lit(s, "/run") || has_prefix_lit(s, "/run ") || (s.len() > 1 && s[0] == '!') {
        Command { kind: CommandKind::Run, arg: run_command_arg(input) }
    } else if s.len() > 0 && s[0] == '/' && is_unknown_command(input) {
        Command { kind: CommandKind::Unknown, arg: unknown_command_name(input) }
    } else {
        command(CommandKind::NotACommand)
    }
}

impl Command {
    /// What the REPL loop does after this command.
    pub fn result(&self) -> (r: CommandResult)
        ensures
            r == result_of(self.kind),
    {
        match self.kind {
            CommandKind::Quit => CommandResult::Quit,
            CommandKind::NotACommand => CommandResult::NotACommand,
            _ => CommandResult::Continue,
        }
    }
}


/// `s` holds something other than white space.
pub fn has_content(s: &str) -> (b: bool)
    ensures
        b == (trim(s@).len() > 0),
{
    let v = chars_of(s);
    let t = trimmed(v.as_slice());
    t.len() > 0
}

/// The lines of `s`, each as a `String`.
pub fn lines_as_strings(s: &str) -> (r: Vec<String>)
    ensures
        r@.len() == lines(s@).len(),
        forall|i: int| 0 <= i < r@.len() ==> #[trigger] r@[i]@ == lines(s@)[i],
{
    let v = chars_of(s);
    let ls = lines_of(v.as_slice());
    let mut r: Vec<String> = Vec::new();
    let mut i: usize = 0;
    while i < ls.len()
        invariant
            ls@.len() == lines(s@).len(),
            forall|k: int| 0 <= k < ls@.len() ==> #[trigger] ls@[k]@ == lines(s@)[k],
            0 <= i <= ls@.len(),
            r@.len() == i,
            forall|k: int| 0 <= k < i ==> #[trigger] r@[k]@ == lines(s@)[k],
        decreases ls.len() - i,
    {
        r.push(string_of(ls[i].as_slice()));
        i = i + 1;
    }
    r
}

/// What `git status --short` showed.
#[derive(Debug, Clone, Copy, PartialEq, Eq, Structural)]
pub enum DiffState {
    /// The command failed: not in a git repository.
    NotARepository,
    /// No uncommitted changes.
    Clean,
    /// There are changes, one per line.
    Changes,
}

/// The report of `/diff`: the state and the changed entries.
pub struct DiffReport {
    pub state: DiffState,
    pub changes: Vec<String>,
}

/// Reads the output of `git status --short` (`succeeded` tells whether it
/// ran and exited successfully).
pub fn diff_report(succeeded: bool, status: &str) -> (r: DiffReport)
    ensures
        r.state == (if !succeeded {
            DiffState::NotARepository
        } else if trim(status@).len() == 0 {
            DiffState::Clean
        } else {
            DiffState::Changes
        }),
        r.state == DiffState::Changes ==> r.changes@.len() == lines(status@).len() && forall|
            i: int,
        | 0 <= i < r.changes@.len() ==> #[trigger] r.changes@[i]@ == lines(status@)[i],
        r.state != DiffState::Changes ==> r.changes@.len() == 0,
{
    if !succeeded {
        DiffReport { state: DiffState::NotARepository, changes: Vec::new() }
    } else if !has_content(status) {
        DiffReport { state: DiffState::Clean, changes: Vec::new() }
    } else {
        DiffReport { state: DiffState::Changes, changes: lines_as_strings(status) }
    }
}

/// What `/undo` does, decided from the output of `git diff --stat` and of
/// `git ls-files --others --exclude-standard`.
pub struct UndoPlan {
    /// Tracked files have uncommitted changes: show the diff and revert them.
    pub has_diff: bool,
    /// Untracked files: list them and remove them.
    pub untracked_files: Vec<String>,
}

impl UndoPlan {
    /// Nothing is to be undone.
    pub fn nothing_to_undo(&self) -> (b: bool)
        ensures
            b == (!self.has_diff && self.untracked_files@.len() == 0),
    {
        !self.has_diff && self.untracked_files.len() == 0
    }
}

/// Plans `/undo`. `diff_succeeded` tells whether `git diff --stat` ran and
/// exited successfully; `untracked` is the output of the listing of
/// untracked files when that command ran.
pub fn plan_undo(diff_succeeded: bool, diff_stat: &str, untracked: Option<&str>) -> (r: UndoPlan)
    ensures
        r.has_diff == (diff_succeeded && trim(diff_stat@).len() > 0),
        match untracked {
            Some(out) => r.untracked_files@.len() == lines(out@).len() && forall|i: int|
                0 <= i < r.untracked_files@.len() ==> #[trigger] r.untracked_files@[i]@ == lines(
                    out@,
                )[i],
            None => r.untracked_files@.len() == 0,
        },
{
    let has_diff = diff_succeeded && has_content(diff_stat);
    let untracked_files = match untracked {
        Some(out) => lines_as_strings(out),
        None => Vec::new(),
    };
    UndoPlan { has_diff, untracked_files }
}

/// Every health check passed.
pub fn all_checks_passed(passed: &[bool]) -> (b: bool)
    ensures
        b == (forall|i: int| 0 <= i < passed@.len() ==> passed@[i]),
{
    let mut i: usize = 0;
    while i < passed.len()
        invariant
            0 <= i <= passed@.len(),
            forall|k: int| 0 <= k < i ==> passed@[k],
        decreases passed.len() - i,
    {
        if !passed[i] {
            return false;
        }
        i = i + 1;
    }
    true
}

/// `s` right-aligned in a field of three characters.
pub open spec fn pad3(s: Seq<char>) -> Seq<char> {
    if s.len() < 3 {
        Seq::new((3 - s.len()) as nat, |i: int| ' ') + s
    } else {
        s
    }
}

/// The history line of message `i` (0-based): its 1-based number
/// right-aligned, its role and its summary.
pub open spec fn history_line(msgs: Seq<AgentMessage>, i: int) -> Seq<char> {
    "    "@ + pad3(dec((i + 1) as nat)) + ". ["@ + role_of(msgs[i]) + "] "@ + summary_of(msgs[i])
}

/// The lines of the `/history` listing, one per message.
pub fn history_lines(messages: &[AgentMessage]) -> (r: Vec<String>)
    requires
        forall|i: int| 0 <= i < messages@.len() ==> summarizable(#[trigger] messages@[i]),
    ensures
        r@.len() == messages@.len(),
        forall|i: int| 0 <= i < r@.len() ==> #[trigger] r@[i]@ == history_line(messages@, i),
{
    let mut r: Vec<String> = Vec::new();
    let mut i: usize = 0;
    let n = messages.len();
    while i < n
        invariant
            n == messages@.len(),
            forall|i: int| 0 <= i < messages@.len() ==> summarizable(#[trigger] messages@[i]),
            0 <= i <= n,
            r@.len() == i,
            forall|k: int| 0 <= k < i ==> #[trigger] r@[k]@ == history_line(messages@, k),
        decreases n - i,
    {
        let (role, preview) = summarize_message(&messages[i]);
        let mut line = chars_of("    ");
        let num = decimal((i + 1) as u64);
        let mut k: usize = num.len();
        while k < 3
            invariant
                num@.len() <= k <= 3 || (k == num@.len() && k >= 3),
                line@ == "    "@ + Seq::new((k - num@.len()) as nat, |j: int| ' '),
            decreases 3 - k,
        {
            line.push(' ');
            assert(Seq::new((k + 1 - num@.len()) as nat, |j: int| ' ') == Seq::new(
                (k - num@.len()) as nat,
                |j: int| ' ',
            ).push(' '));
            k = k + 1;
        }
        proof {
            if num@.len() >= 3 {
                assert(Seq::new(0nat, |j: int| ' ') == Seq::<char>::empty());
                assert(line@ == "    "@);
            }
        }
        append_chars(&mut line, num.as_slice());
        let open = chars_of(". [");
        append_chars(&mut line, open.as_slice());
        let rv = chars_of(role);
        append_chars(&mut line, rv.as_slice());
        let close = chars_of("] ");
        append_chars(&mut line, close.as_slice());
        let pv = chars_of(preview.as_str());
        append_chars(&mut line, pv.as_slice());
        proof {
            let p = if num@.len() < 3 {
                Seq::new((3 - num@.len()) as nat, |j: int| ' ') + num@
            } else {
                num@
            };
            assert(pad3(num@) == p);
            assert(line@ == history_line(messages@, i as int));
        }
        r.push(string_of(line.as_slice()));
        i = i + 1;
    }
    r
}

/// The first line of the system prompt shown by `/config`, cut to 60
/// characters; `(empty)` when there is none.
pub fn system_preview(system_prompt: &str) -> (r: String)
    ensures
        r@ == truncated(
            if system_prompt@.len() == 0 {
                "(empty)"@
            } else {
                first_line(system_prompt@)
            },
            60,
        ),
{
    let v = chars_of(system_prompt);
    if v.len() == 0 {
        let e = chars_of("(empty)");
        string_of(truncate_chars(e.as_slice(), 60).as_slice())
    } else {
        let k = first_line_end(v.as_slice());
        let line = slice_to_vec(v.as_slice(), 0, k);
        assert(v@.subrange(0, k as int) == v@.take(k as int));
        string_of(truncate_chars(line.as_slice(), 60).as_slice())
    }
}

/// A configured limit, or the default it falls back to.
pub open spec fn limit_label(value: Option<u64>, default: Seq<char>) -> Seq<char> {
    match value {
        Some(m) => dec(m as nat),
        None => default,
    }
}

/// The `max_tokens` setting shown by `/config`.
pub fn max_tokens_label(max_tokens: Option<u32>) -> (r: String)
    ensures
        r@ == limit_label(
            match max_tokens {
                Some(m) => Some(m as u64),
                None => None,
            },
            "default (8192)"@,
        ),
{
    match max_tokens {
        Some(m) => string_of(decimal(m as u64).as_slice()),
        None => "default (8192)".to_owned(),
    }
}

/// The `max_turns` setting shown by `/config`.
pub fn max_turns_label(max_turns: Option<usize>) -> (r: String)
    ensures
        r@ == limit_label(
            match max_turns {
                Some(m) => Some(m as u64),
                None => None,
            },
            "default (50)"@,
        ),
{
    match max_turns {
        Some(m) => string_of(decimal(m as u64).as_slice()),
        None => "default (50)".to_owned(),
    }
}

/// The skills line shown by `/config`.
pub fn skills_label(count: usize) -> (r: String)
    ensures
        r@ == (if count == 0 {
            "none"@
        } else {
            dec(count as nat) + " loaded"@
        }),
{
    if count == 0 {
        "none".to_owned()
    } else {
        let mut v = decimal(count as u64);
        let tail = chars_of(" loaded");
        append_chars(&mut v, tail.as_slice());
        string_of(v.as_slice())
    }
}


/// Only `/quit` and `/exit` end the REPL.
pub proof fn law_quit_exactly(s: Seq<char>)
    ensures
        result_of(kind_of(s)) == CommandResult::Quit <==> (s == "/quit"@ || s == "/exit"@),
{
}

/// Every recognised command, quitting aside, keeps the REPL loop going
/// without sending the line to the model; only a line that is no command
/// goes to the model, and only `Quit` ends the loop.
pub proof fn law_commands_continue_the_loop(k: CommandKind)
    ensures
        result_of(k) == CommandResult::NotACommand <==> k == CommandKind::NotACommand,
        result_of(k) == CommandResult::Quit <==> k == CommandKind::Quit,
        k != CommandKind::NotACommand && k != CommandKind::Quit ==> result_of(k)
            == CommandResult::Continue,
{
}

/// A line that starts with neither `/` nor `!` is never a command: it goes to
/// the model.
pub proof fn law_plain_text_is_not_a_command(s: Seq<char>)
    requires
        s.len() == 0 || (s[0] != '/' && s[0] != '!'),
    ensures
        kind_of(s) == CommandKind::NotACommand,
        result_of(kind_of(s)) == CommandResult::NotACommand,
{
    reveal_strlit("/quit");
    reveal_strlit("/exit");
    reveal_strlit("/help");
    reveal_strlit("/version");
    reveal_strlit("/status");
    reveal_strlit("/tokens");
    reveal_strlit("/cost");
    reveal_strlit("/clear");
    reveal_strlit("/model");
    reveal_strlit("/model ");
    reveal_strlit("/think");
    reveal_strlit("/think ");
    reveal_strlit("/save");
    reveal_strlit("/save ");
    reveal_strlit("/load");
    reveal_strlit("/load ");
    reveal_strlit("/diff");
    reveal_strlit("/undo");
    reveal_strlit("/health");
    reveal_strlit("/history");
    reveal_strlit("/config");
    reveal_strlit("/compact");
    reveal_strlit("/context");
    reveal_strlit("/init");
    reveal_strlit("/run");
    reveal_strlit("/run ");
    if s.len() > 0 {
        assert(s.take(1)[0] == s[0]);
    }
}

/// `!<cmd>` is a shortcut for `/run <cmd>`: both run the same command.
pub proof fn law_bang_is_run_shortcut(c: Seq<char>)
    requires
        c.len() > 0,
        !starts_with(c, "/run "@),
    ensures
        kind_of(seq!['!'] + c) == CommandKind::Run,
        kind_of("/run "@ + c) == CommandKind::Run,
        result_of(kind_of(seq!['!'] + c)) == CommandResult::Continue,
        result_of(kind_of("/run "@ + c)) == CommandResult::Continue,
        arg_of(seq!['!'] + c) == arg_of("/run "@ + c),
{
    reveal_strlit("/quit");
    reveal_strlit("/exit");
    reveal_strlit("/help");
    reveal_strlit("/version");
    reveal_strlit("/status");
    reveal_strlit("/tokens");
    reveal_strlit("/cost");
    reveal_strlit("/clear");
    reveal_strlit("/model");
    reveal_strlit("/model ");
    reveal_strlit("/think");
    reveal_strlit("/think ");
    reveal_strlit("/save");
    reveal_strlit("/save ");
    reveal_strlit("/load");
    reveal_strlit("/load ");
    reveal_strlit("/diff");
    reveal_strlit("/undo");
    reveal_strlit("/health");
    reveal_strlit("/history");
    reveal_strlit("/config");
    reveal_strlit("/compact");
    reveal_strlit("/context");
    reveal_strlit("/init");
    reveal_strlit("/run");
    reveal_strlit("/run ");
    let b = seq!['!'] + c;
    let r = "/run "@ + c;
    assert(b[0] == '!');
    assert(b.len() > 1);
    assert forall|n: int| 1 <= n <= b.len() implies #[trigger] b.take(n)[0] == '!' by {}
    assert(b.drop_first() == c);
    lemma_not_prefix(b, "/model "@);
    lemma_not_prefix(b, "/think "@);
    lemma_not_prefix(b, "/save "@);
    lemma_not_prefix(b, "/load "@);
    lemma_not_prefix(b, "/run "@);
    assert(r[1] == 'r');
    assert(r.take(5) == "/run "@);
    assert(r.skip(5) == c);
    assert(strip_all_prefix(r, "/run "@) == strip_all_prefix(c, "/run "@));
}

/// A sequence does not start with a pattern whose first character differs.
proof fn lemma_not_prefix(s: Seq<char>, p: Seq<char>)
    requires
        p.len() > 0,
        s.len() > 0,
        s[0] != p[0],
    ensures
        !starts_with(s, p),
{
    if starts_with(s, p) {
        assert(s.take(p.len() as int)[0] == p[0]);
    }
}

/// A word without white space is its own first word.
proof fn lemma_first_word_of_word(w: Seq<char>)
    requires
        w.len() > 0,
        forall|i: int| 0 <= i < w.len() ==> !is_ws(#[trigger] w[i]),
    ensures
        first_word(w) == w,
{
    assert(trim_start(w) == w);
    lemma_token_len_all(w);
    assert(w.take(w.len() as int) == w);
}

proof fn lemma_token_len_all(w: Seq<char>)
    requires
        forall|i: int| 0 <= i < w.len() ==> !is_ws(#[trigger] w[i]),
    ensures
        token_len(w) == w.len(),
    decreases w.len(),
{
    if w.len() > 0 {
        let d = w.drop_first();
        assert forall|i: int| 0 <= i < d.len() implies !is_ws(#[trigger] d[i]) by {
            assert(d[i] == w[i + 1]);
        }
        lemma_token_len_all(d);
    }
}

/// No command that `/help` lists is ever reported as unknown.
pub proof fn law_known_commands_are_not_unknown(i: int)
    requires
        0 <= i < known_commands().len(),
    ensures
        !unknown_command(known_commands()[i]),
        kind_of(known_commands()[i]) != CommandKind::Unknown,
{
    reveal_strlit("/help");
    reveal_strlit("/quit");
    reveal_strlit("/exit");
    reveal_strlit("/clear");
    reveal_strlit("/compact");
    reveal_strlit("/config");
    reveal_strlit("/context");
    reveal_strlit("/cost");
    reveal_strlit("/init");
    reveal_strlit("/model");
    reveal_strlit("/think");
    reveal_strlit("/status");
    reveal_strlit("/tokens");
    reveal_strlit("/save");
    reveal_strlit("/load");
    reveal_strlit("/diff");
    reveal_strlit("/undo");
    reveal_strlit("/health");
    reveal_strlit("/retry");
    reveal_strlit("/run");
    reveal_strlit("/history");
    reveal_strlit("/version");
    let w = known_commands()[i];
    assert(w.len() > 0);
    assert forall|j: int| 0 <= j < w.len() implies !is_ws(#[trigger] w[j]) by {
        assert(w[j] as u32 >= 0x2f);
        assert(w[j] as u32 <= 0x7a);
    }
    lemma_first_word_of_word(w);
    assert(known_commands()[i] == w);
}

} // verus!
