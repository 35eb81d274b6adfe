//! Command dispatch: a finished line is split into shell words, and the
//! first word decides between a builtin and a program found on PATH.
use vstd::prelude::*;
use crate::history::HistoryLog;
use crate::text::{is_blank, blank, split_on, split_text, text_eq, texts};

verus! {

/// The words that POSIX-shell splitting (quotes group, backslash escapes)
/// makes of a line, up to the first quoting error.
pub uninterp spec fn shell_words_of(line: Seq<char>) -> Seq<Seq<char>>;

/// Relies on `shlex::Shlex`: iterating it yields the shell words of the
/// line, and what it yields depends on the line alone.
#[verifier::external_body]
fn shell_words(line: &str) -> (r: Vec<String>)
    ensures
        texts(r@) == shell_words_of(line@),
{
    shlex::Shlex::new(line).collect()
}

/// The builtin commands.
pub open spec fn builtin_name(verb: Seq<char>) -> bool {
    ||| verb == "echo"@
    ||| verb == "exit"@
    ||| verb == "help"@
    ||| verb == "type"@
    ||| verb == "pwd"@
    ||| verb == "cd"@
    ||| verb == "history"@
}

/// Whether `command` names a builtin, which runs in the shell itself and is
/// never looked up on PATH.
pub fn is_builtin(command: &str) -> (r: bool)
    ensures
        r == builtin_name(command@),
{
    text_eq(command, "echo") || text_eq(command, "exit") || text_eq(command, "help")
        || text_eq(command, "type") || text_eq(command, "pwd") || text_eq(command, "cd")
        || text_eq(command, "history")
}

/// A tokenized line: the verb and its arguments.
pub struct Command {
    pub verb: String,
    pub args: Vec<String>,
}

/// The errors that a command can meet. None ends the shell but
/// `HomeNotSet`, and that one only when `cd ~` needs the home directory.
#[derive(Debug)]
pub enum ShellError {
    /// The line gave no word to run.
    Tokenize,
    /// A builtin was given too few arguments.
    MissingArgument { command: String },
    /// No PATH directory holds the verb.
    CommandNotFound { verb: String },
    /// The program was found but could not be started.
    SpawnFailure { verb: String, cause: String },
    /// The working directory could not be changed.
    PathChangeFailure { path: String, cause: String },
    /// `cd ~` without a home directory.
    HomeNotSet,
}

/// The message printed for an error.
pub open spec fn error_message(e: ShellError) -> Seq<char> {
    match e {
        ShellError::Tokenize => "parse error: no command"@,
        ShellError::MissingArgument { command } => command@ + ": missing argument"@,
        ShellError::CommandNotFound { verb } => verb@ + ": command not found"@,
        ShellError::SpawnFailure { verb, cause } => verb@ + ": failed to execute ("@ + cause@
            + ")"@,
        ShellError::PathChangeFailure { path, cause } => "cd: "@ + path@ + ": "@ + cause@,
        ShellError::HomeNotSet => "HOME environment variable not set"@,
    }
}

impl ShellError {
    /// The message printed for this error.
    pub fn message(&self) -> (r: String)
        ensures
            r@ == error_message(*self),
    {
        match self {
            ShellError::Tokenize => String::from_str("parse error: no command"),
            ShellError::MissingArgument { command } => {
                let mut r = command.clone();
                r.append(": missing argument");
                r
            },
            ShellError::CommandNotFound { verb } => {
                let mut r = verb.clone();
                r.append(": command not found");
                r
            },
            ShellError::SpawnFailure { verb, cause } => {
                let mut r = verb.clone();
                r.append(": failed to execute (");
                r.append(cause.as_str());
                r.append(")");
                r
            },
            ShellError::PathChangeFailure { path, cause } => {
                let mut r = String::from_str("cd: ");
                r.append(path.as_str());
                r.append(": ");
                r.append(cause.as_str());
                r
            },
            ShellError::HomeNotSet => String::from_str("HOME environment variable not set"),
        }
    }
}

/// Whether `r` is the command made of `words`: the first word is the verb
/// and the rest are the arguments; no words is a tokenize error.
pub open spec fn command_of_words(words: Seq<Seq<char>>, r: Result<Command, ShellError>) -> bool {
    if words.len() == 0 {
        r is Err && r->Err_0 is Tokenize
    } else {
        r is Ok && r->Ok_0.verb@ == words[0] && texts(r->Ok_0.args@) == words.drop_first()
    }
}

/// Makes a command of its words.
pub fn command_from_words(words: Vec<String>) -> (r: Result<Command, ShellError>)
    ensures
        command_of_words(texts(words@), r),
{
    if words.len() == 0 {
        return Err(ShellError::Tokenize);
    }
    let mut args: Vec<String> = Vec::new();
    let mut i: usize = 1;
    while i < words.len()
        invariant
            1 <= i <= words.len(),
            args@.len() == i - 1,
            forall|j: int| 0 <= j < i - 1 ==> #[trigger] args@[j]@ == words@[j + 1]@,
        decreases words.len() - i,
    {
        args.push(words[i].clone());
        i = i + 1;
    }
    assert(texts(args@) =~= texts(words@).drop_first());
    Ok(Command { verb: words[0].clone(), args })
}

/// Splits a finished line into a command.
pub fn parse_command(line: &str) -> (r: Result<Command, ShellError>)
    ensures
        command_of_words(shell_words_of(line@), r),
{
    let words = shell_words(line);
    command_from_words(words)
}

/// A decimal digit character.
pub open spec fn is_digit(c: char) -> bool {
    48 <= (c as u32) <= 57
}

/// The value of a digit string.
pub open spec fn digits_value(s: Seq<char>) -> int
    decreases s.len(),
{
    if s.len() == 0 {
        0
    } else {
        digits_value(s.drop_last()) * 10 + ((s.last() as u32) - 48)
    }
}

/// Whether `s` starts with a sign.
pub open spec fn has_sign(s: Seq<char>) -> bool {
    s.len() > 0 && (s[0] == '+' || s[0] == '-')
}

/// `s` without its sign.
pub open spec fn unsigned_part(s: Seq<char>) -> Seq<char> {
    if has_sign(s) {
        s.drop_first()
    } else {
        s
    }
}

/// One or more digits and nothing else.
pub open spec fn all_digits(s: Seq<char>) -> bool {
    s.len() > 0 && forall|i: int| 0 <= i < s.len() ==> is_digit(#[trigger] s[i])
}

/// The integer written in `s`: an optional `+` or `-`, then one or more
/// decimal digits and nothing else.
pub open spec fn parse_int(s: Seq<char>) -> Option<int> {
    if all_digits(unsigned_part(s)) {
        Some(
            if has_sign(s) && s[0] == '-' {
                -digits_value(unsigned_part(s))
            } else {
                digits_value(unsigned_part(s))
            },
        )
    } else {
        None
    }
}

/// The `i32` written in `s`; `None` when `s` is no integer or the integer
/// does not fit.
pub open spec fn parse_i32(s: Seq<char>) -> Option<i32> {
    match parse_int(s) {
        Some(v) => if i32::MIN <= v <= i32::MAX {
            Some(v as i32)
        } else {
            None
        },
        None => None,
    }
}

/// The exit status asked for by `exit` with these arguments: the first one
/// read as an integer, 0 when it is missing or no `i32`.
pub open spec fn exit_code_of(args: Seq<Seq<char>>) -> i32 {
    if args.len() > 0 {
        match parse_i32(args[0]) {
            Some(v) => v,
            None => 0,
        }
    } else {
        0
    }
}

proof fn lemma_digits_value_nonneg(s: Seq<char>)
    requires
        forall|i: int| 0 <= i < s.len() ==> is_digit(#[trigger] s[i]),
    ensures
        digits_value(s) >= 0,
    decreases s.len(),
{
    if s.len() > 0 {
        lemma_digits_value_nonneg(s.drop_last());
        assert(is_digit(s[s.len() - 1]));
    }
}

/// Above every value an `i32` can hold, negated or not.
const VALUE_CAP: i64 = 2147483649;

/// Reads an `i32` the way `str::parse` does.
pub fn parse_i32_text(s: &str) -> (r: Option<i32>)
    ensures
        r == parse_i32(s@),
{
    let n = s.unicode_len();
    let mut start: usize = 0;
    let mut negative = false;
    if n > 0 {
        let c = s.get_char(0);
        if c == '+' || c == '-' {
            start = 1;
            negative = c == '-';
        }
    }
    let ghost body = unsigned_part(s@);
    assert(has_sign(s@) == (start == 1));
    assert(body =~= s@.subrange(start as int, n as int));
    if start == n {
        return None;
    }
    let mut acc: i64 = 0;
    let mut i: usize = start;
    while i < n
        invariant
            start <= i <= n,
            n == s@.len(),
            body == s@.subrange(start as int, n as int),
            body == unsigned_part(s@),
            has_sign(s@) == (start == 1),
            negative == (has_sign(s@) && s@[0] == '-'),
            forall|j: int| start <= j < i ==> is_digit(#[trigger] s@[j]),
            0 <= acc <= VALUE_CAP,
            acc == if digits_value(s@.subrange(start as int, i as int)) < VALUE_CAP {
                digits_value(s@.subrange(start as int, i as int))
            } else {
                VALUE_CAP as int
            },
        decreases n - i,
    {
        let c = s.get_char(i);
        if !((c as u32) >= 48 && (c as u32) <= 57) {
            assert(!is_digit(body[i - start]));
            return None;
        }
        let ghost prefix = s@.subrange(start as int, i as int);
        let ghost next = s@.subrange(start as int, i + 1);
        assert(next.drop_last() =~= prefix);
        proof {
            assert forall|j: int| 0 <= j < prefix.len() implies is_digit(#[trigger] prefix[j]) by {
                assert(prefix[j] == s@[start + j]);
            }
            lemma_digits_value_nonneg(prefix);
        }
        let d = (c as u32 - 48) as i64;
        let grown = acc * 10 + d;
        acc = if grown < VALUE_CAP {
            grown
        } else {
            VALUE_CAP
        };
        proof {
            assert(digits_value(next) == digits_value(prefix) * 10 + d);
            if digits_value(prefix) >= VALUE_CAP {
                assert(digits_value(prefix) * 10 + d >= VALUE_CAP) by (nonlinear_arith)
                    requires
                        digits_value(prefix) >= VALUE_CAP,
                        d >= 0,
                ;
            }
        }
        i = i + 1;
    }
    assert forall|j: int| 0 <= j < body.len() implies is_digit(#[trigger] body[j]) by {
        assert(body[j] == s@[start + j]);
    }
    if negative {
        if acc <= 2147483648 {
            Some((-acc) as i32)
        } else {
            None
        }
    } else {
        if acc <= 2147483647 {
            Some(acc as i32)
        } else {
            None
        }
    }
}

/// The exit status for `exit` with these arguments.
pub fn exit_code(args: &Vec<String>) -> (r: i32)
    ensures
        r == exit_code_of(texts(args@)),
{
    if args.len() == 0 {
        return 0;
    }
    match parse_i32_text(args[0].as_str()) {
        Some(v) => v,
        None => 0,
    }
}

/// Words joined with single spaces, as `echo` prints them.
pub open spec fn join_words(ws: Seq<Seq<char>>) -> Seq<char>
    decreases ws.len(),
{
    if ws.len() == 0 {
        Seq::empty()
    } else if ws.len() == 1 {
        ws[0]
    } else {
        join_words(ws.drop_last()) + seq![' '] + ws.last()
    }
}

/// Joins words with single spaces.
pub fn join_args(ws: &Vec<String>) -> (r: String)
    ensures
        r@ == join_words(texts(ws@)),
{
    let mut r = String::new();
    let mut i: usize = 0;
    while i < ws.len()
        invariant
            i <= ws.len(),
            r@ == join_words(texts(ws@.subrange(0, i as int))),
        decreases ws.len() - i,
    {
        if i > 0 {
            r.push(' ');
        }
        r.append(ws[i].as_str());
        proof {
            let t = texts(ws@.subrange(0, i + 1));
            assert(t.drop_last() =~= texts(ws@.subrange(0, i as int)));
            if i == 0 {
                assert(r@ =~= t[0]);
            }
        }
        i = i + 1;
    }
    assert(ws@.subrange(0, i as int) =~= ws@);
    r
}

/// What the shell does with a command.
#[derive(Debug)]
pub enum CommandAction {
    /// Print this text (`echo`).
    Print(String),
    /// Print the usage text (`help`).
    Help,
    /// Print the working directory (`pwd`).
    PrintWorkingDir,
    /// Change the working directory to this path (`cd path`).
    ChangeDir(String),
    /// Change the working directory to the home directory (`cd ~`).
    ChangeDirHome,
    /// Print the numbered history (`history`).
    ListHistory,
    /// Release the terminal and end the process with this status (`exit`).
    Exit(i32),
    /// Recognised, does nothing (`type`).
    Nothing,
    /// Run the program found for `verb` on PATH with these arguments.
    External { verb: String, args: Vec<String> },
}

/// The usage text printed by `help`.
pub fn help_text() -> (r: String)
    ensures
        r@ == "Available commands: type, exit [code], help, echo, pwd, cd, history"@,
{
    String::from_str("Available commands: type, exit [code], help, echo, pwd, cd, history")
}

/// Whether `r` is what the shell does with `verb` and `args`: each builtin
/// as described on `CommandAction`; `cd` without an argument is a missing
/// argument; every other verb runs a program.
pub open spec fn planned(verb: Seq<char>, args: Seq<Seq<char>>, r: Result<CommandAction, ShellError>) -> bool {
    if verb == "echo"@ {
        r is Ok && r->Ok_0 is Print && r->Ok_0->Print_0@ == join_words(args)
    } else if verb == "exit"@ {
        r is Ok && r->Ok_0 == CommandAction::Exit(exit_code_of(args))
    } else if verb == "help"@ {
        r is Ok && r->Ok_0 is Help
    } else if verb == "type"@ {
        r is Ok && r->Ok_0 is Nothing
    } else if verb == "pwd"@ {
        r is Ok && r->Ok_0 is PrintWorkingDir
    } else if verb == "cd"@ {
        if args.len() == 0 {
            r is Err && r->Err_0 is MissingArgument && r->Err_0->command@ == "cd"@
        } else if args[0] == "~"@ {
            r is Ok && r->Ok_0 is ChangeDirHome
        } else {
            r is Ok && r->Ok_0 is ChangeDir && r->Ok_0->ChangeDir_0@ == args[0]
        }
    } else if verb == "history"@ {
        r is Ok && r->Ok_0 is ListHistory
    } else {
        r is Ok && r->Ok_0 is External && r->Ok_0->verb@ == verb && texts(r->Ok_0->args@) == args
    }
}

/// Decides what a command does.
pub fn plan_command(cmd: &Command) -> (r: Result<CommandAction, ShellError>)
    ensures
        planned(cmd.verb@, texts(cmd.args@), r),
{
    let verb = cmd.verb.as_str();
    if text_eq(verb, "echo") {
        Ok(CommandAction::Print(join_args(&cmd.args)))
    } else if text_eq(verb, "exit") {
        Ok(CommandAction::Exit(exit_code(&cmd.args)))
    } else if text_eq(verb, "help") {
        Ok(CommandAction::Help)
    } else if text_eq(verb, "type") {
        Ok(CommandAction::Nothing)
    } else if text_eq(verb, "pwd") {
        Ok(CommandAction::PrintWorkingDir)
    } else if text_eq(verb, "cd") {
        if cmd.args.len() == 0 {
            Err(ShellError::MissingArgument { command: String::from_str("cd") })
        } else if text_eq(cmd.args[0].as_str(), "~") {
            Ok(CommandAction::ChangeDirHome)
        } else {
            Ok(CommandAction::ChangeDir(cmd.args[0].clone()))
        }
    } else if text_eq(verb, "history") {
        Ok(CommandAction::ListHistory)
    } else {
        Ok(CommandAction::External { verb: cmd.verb.clone(), args: cmd.args.clone() })
    }
}

/// Whether `r` is what the shell does with a line that split into `words`.
pub open spec fn dispatched(words: Seq<Seq<char>>, r: Result<CommandAction, ShellError>) -> bool {
    if words.len() == 0 {
        r is Err && r->Err_0 is Tokenize
    } else {
        planned(words[0], words.drop_first(), r)
    }
}

/// Takes a finished line: a blank line is dropped (`None`) and leaves the
/// history as it was; any other line is recorded in the history exactly as
/// typed, split into words and planned.
pub fn accept_line(history: &mut HistoryLog, line: String) -> (r: Option<Result<CommandAction, ShellError>>)
    ensures
        blank(line@) ==> r is None && final(history)@ == old(history)@,
        !blank(line@) ==> r is Some && final(history)@ == old(history)@.push(line@)
            && dispatched(shell_words_of(line@), r->Some_0),
{
    if is_blank(line.as_str()) {
        return None;
    }
    let parsed = parse_command(line.as_str());
    history.record(line);
    match parsed {
        Err(e) => Some(Err(e)),
        Ok(cmd) => Some(plan_command(&cmd)),
    }
}

/// The paths tried for `verb`, one per PATH entry in order: the entry, `/`,
/// the verb.
pub open spec fn path_probes(path_var: Seq<char>, verb: Seq<char>) -> Seq<Seq<char>> {
    split_on(path_var, ':').map_values(|d: Seq<char>| d + seq!['/'] + verb)
}

/// The first probe from index `i` on that exists; an existence flag missing
/// from `exists` counts as false.
pub open spec fn first_hit(probes: Seq<Seq<char>>, exists: Seq<bool>, i: int) -> Option<Seq<char>>
    decreases probes.len() - i,
{
    if i < 0 || i >= probes.len() {
        None
    } else if i < exists.len() && exists[i] {
        Some(probes[i])
    } else {
        first_hit(probes, exists, i + 1)
    }
}

/// The paths to test for `verb`, given the value of PATH.
pub fn probe_paths(path_var: &str, verb: &str) -> (r: Vec<String>)
    ensures
        texts(r@) == path_probes(path_var@, verb@),
{
    let dirs = split_text(path_var, ':');
    let mut out: Vec<String> = Vec::new();
    let mut i: usize = 0;
    while i < dirs.len()
        invariant
            i <= dirs.len(),
            texts(dirs@) == split_on(path_var@, ':'),
            out@.len() == i,
            forall|j: int| 0 <= j < i ==> #[trigger] out@[j]@ == dirs@[j]@ + seq!['/'] + verb@,
        decreases dirs.len() - i,
    {
        let mut p = dirs[i].clone();
        p.push('/');
        p.append(verb);
        out.push(p);
        i = i + 1;
    }
    assert(texts(out@) =~= path_probes(path_var@, verb@));
    out
}

/// The first probe whose existence flag is set, in PATH order.
pub fn find_in_path(probes: &Vec<String>, exists: &Vec<bool>) -> (r: Option<String>)
    ensures
        match r {
            Some(p) => first_hit(texts(probes@), exists@, 0) == Some(p@),
            None => first_hit(texts(probes@), exists@, 0) is None,
        },
{
    let mut i: usize = 0;
    while i < probes.len()
        invariant
            i <= probes.len(),
            first_hit(texts(probes@), exists@, 0) == first_hit(texts(probes@), exists@, i as int),
        decreases probes.len() - i,
    {
        if i < exists.len() && exists[i] {
            return Some(probes[i].clone());
        }
        i = i + 1;
    }
    None
}

/// Resolves a verb that is no builtin: the first existing probe, or
/// `CommandNotFound` naming the verb when none exists.
pub fn resolve_external(verb: &str, probes: &Vec<String>, exists: &Vec<bool>) -> (r: Result<String, ShellError>)
    ensures
        match r {
            Ok(p) => first_hit(texts(probes@), exists@, 0) == Some(p@),
            Err(e) => first_hit(texts(probes@), exists@, 0) is None && e is CommandNotFound
                && e->CommandNotFound_verb@ == verb@,
        },
{
    match find_in_path(probes, exists) {
        Some(p) => Ok(p),
        None => Err(ShellError::CommandNotFound { verb: verb.to_owned() }),
    }
}

/// What `cd` reports once the change of directory was tried: nothing when
/// it succeeded, else a `PathChangeFailure` naming the path and the cause.
pub fn cd_outcome(path: &str, attempt: Result<(), String>) -> (r: Result<(), ShellError>)
    ensures
        attempt is Ok ==> r is Ok,
        attempt is Err ==> r is Err && r->Err_0 is PathChangeFailure
            && r->Err_0->PathChangeFailure_path@ == path@
            && r->Err_0->PathChangeFailure_cause@ == attempt->Err_0@,
{
    match attempt {
        Ok(()) => Ok(()),
        Err(cause) => Err(ShellError::PathChangeFailure { path: path.to_owned(), cause }),
    }
}

/// Output text for a terminal in raw mode: each `\n` becomes `\r\n`.
pub open spec fn raw_newlines(s: Seq<char>) -> Seq<char>
    decreases s.len(),
{
    if s.len() == 0 {
        Seq::empty()
    } else if s.last() == '\n' {
        raw_newlines(s.drop_last()) + seq!['\r', '\n']
    } else {
        raw_newlines(s.drop_last()).push(s.last())
    }
}

/// Translates line ends for a terminal in raw mode.
pub fn to_raw_newlines(s: &str) -> (r: String)
    ensures
        r@ == raw_newlines(s@),
{
    let n = s.unicode_len();
    let mut r = String::new();
    let mut i: usize = 0;
    assert(s@.subrange(0, 0) =~= Seq::<char>::empty());
    while i < n
        invariant
            n == s@.len(),
            i <= n,
            r@ == raw_newlines(s@.subrange(0, i as int)),
        decreases n - i,
    {
        let c = s.get_char(i);
        assert(s@.subrange(0, i + 1).drop_last() =~= s@.subrange(0, i as int));
        if c == '\n' {
            r.push('\r');
            r.push('\n');
            assert(r@ =~= raw_newlines(s@.subrange(0, i as int)) + seq!['\r', '\n']);
        } else {
            r.push(c);
        }
        i = i + 1;
    }
    assert(s@.subrange(0, n as int) =~= s@);
    r
}

} // verus!
