use rshell::command::{
    accept_line, cd_outcome, exit_code, find_in_path, help_text, is_builtin, join_args,
    parse_command, parse_i32_text, plan_command, probe_paths, resolve_external, to_raw_newlines,
    CommandAction, ShellError,
};
use rshell::history::HistoryLog;
use rshell::text::is_blank;

fn words(ws: &[&str]) -> Vec<String> {
    ws.iter().map(|w| w.to_string()).collect()
}

fn plan(line: &str) -> Result<CommandAction, ShellError> {
    let cmd = parse_command(line).expect("line has words");
    plan_command(&cmd)
}

#[test]
fn builtins_are_recognised() {
    for b in ["echo", "exit", "help", "type", "pwd", "cd", "history"] {
        assert!(is_builtin(b));
    }
    assert!(!is_builtin("ls"));
    assert!(!is_builtin("ech"));
    assert!(!is_builtin("echo2"));
    assert!(!is_builtin(""));
}

#[test]
fn tokenizes_with_quotes() {
    let cmd = parse_command("echo 'a b' \"c  d\" e\\ f").unwrap();
    assert_eq!(cmd.verb, "echo");
    assert_eq!(cmd.args, words(&["a b", "c  d", "e f"]));
}

#[test]
fn only_quotes_is_a_tokenize_error() {
    assert!(matches!(parse_command("\""), Err(ShellError::Tokenize)));
    assert!(matches!(parse_command("   "), Err(ShellError::Tokenize)));
}

#[test]
fn exit_codes() {
    assert!(matches!(plan("exit 7"), Ok(CommandAction::Exit(7))));
    assert!(matches!(plan("exit"), Ok(CommandAction::Exit(0))));
    assert!(matches!(plan("exit notanumber"), Ok(CommandAction::Exit(0))));
    assert!(matches!(plan("exit -3"), Ok(CommandAction::Exit(-3))));
    assert_eq!(exit_code(&words(&["+12"])), 12);
    assert_eq!(exit_code(&words(&["99999999999"])), 0);
}

#[test]
fn parses_i32_like_std() {
    for s in ["0", "7", "-7", "+7", "2147483647", "-2147483648", "007", "", "+", "-", "1a", " 1",
        "2147483648", "-2147483649", "12345678901234567890", "٣"] {
        assert_eq!(parse_i32_text(s), s.parse::<i32>().ok(), "{}", s);
    }
}

#[test]
fn echo_joins_arguments() {
    match plan("echo  hello   world") {
        Ok(CommandAction::Print(t)) => assert_eq!(t, "hello world"),
        other => panic!("unexpected {:?}", other),
    }
    match plan("echo") {
        Ok(CommandAction::Print(t)) => assert_eq!(t, ""),
        other => panic!("unexpected {:?}", other),
    }
    assert_eq!(join_args(&words(&["a", "", "b"])), "a  b");
}

#[test]
fn builtin_plans() {
    assert!(matches!(plan("help"), Ok(CommandAction::Help)));
    assert!(matches!(plan("type ls"), Ok(CommandAction::Nothing)));
    assert!(matches!(plan("pwd"), Ok(CommandAction::PrintWorkingDir)));
    assert!(matches!(plan("history"), Ok(CommandAction::ListHistory)));
    assert!(matches!(plan("cd ~"), Ok(CommandAction::ChangeDirHome)));
    match plan("cd /tmp") {
        Ok(CommandAction::ChangeDir(p)) => assert_eq!(p, "/tmp"),
        other => panic!("unexpected {:?}", other),
    }
    assert_eq!(help_text(), "Available commands: type, exit [code], help, echo, pwd, cd, history");
}

#[test]
fn cd_without_argument_is_missing_argument() {
    match plan("cd") {
        Err(e @ ShellError::MissingArgument { .. }) => assert_eq!(e.message(), "cd: missing argument"),
        other => panic!("unexpected {:?}", other),
    }
}

#[test]
fn cd_failure_names_the_path() {
    let r = cd_outcome("/no/such/dir", Err("No such file or directory (os error 2)".to_string()));
    match r {
        Err(e @ ShellError::PathChangeFailure { .. }) => {
            assert_eq!(e.message(), "cd: /no/such/dir: No such file or directory (os error 2)")
        }
        other => panic!("unexpected {:?}", other),
    }
    assert!(cd_outcome("/tmp", Ok(())).is_ok());
}

#[test]
fn other_verbs_run_programs() {
    match plan("ls -l src") {
        Ok(CommandAction::External { verb, args }) => {
            assert_eq!(verb, "ls");
            assert_eq!(args, words(&["-l", "src"]));
        }
        other => panic!("unexpected {:?}", other),
    }
}

#[test]
fn path_probes_in_order() {
    assert_eq!(probe_paths("/usr/bin:/bin", "ls"), words(&["/usr/bin/ls", "/bin/ls"]));
    assert_eq!(probe_paths("", "ls"), words(&["/ls"]));
    assert_eq!(probe_paths("/a::/b", "x"), words(&["/a/x", "/x", "/b/x"]));
}

#[test]
fn first_existing_probe_wins() {
    let probes = words(&["/usr/bin/ls", "/bin/ls", "/sbin/ls"]);
    assert_eq!(find_in_path(&probes, &vec![false, true, true]), Some("/bin/ls".to_string()));
    assert_eq!(find_in_path(&probes, &vec![false, false, false]), None);
    assert_eq!(find_in_path(&probes, &vec![false]), None);
}

#[test]
fn empty_path_gives_command_not_found() {
    let probes = probe_paths("", "frobnicate");
    let exists = vec![false; probes.len()];
    match resolve_external("frobnicate", &probes, &exists) {
        Err(e @ ShellError::CommandNotFound { .. }) => {
            assert_eq!(e.message(), "frobnicate: command not found")
        }
        other => panic!("unexpected {:?}", other),
    }
    assert_eq!(resolve_external("ls", &words(&["/bin/ls"]), &vec![true]).unwrap(), "/bin/ls");
}

#[test]
fn error_messages() {
    assert_eq!(ShellError::Tokenize.message(), "parse error: no command");
    let e = ShellError::SpawnFailure { verb: "ls".to_string(), cause: "denied".to_string() };
    assert_eq!(e.message(), "ls: failed to execute (denied)");
    assert_eq!(ShellError::HomeNotSet.message(), "HOME environment variable not set");
}

#[test]
fn accept_line_records_and_plans() {
    let mut h = HistoryLog::new();
    assert!(accept_line(&mut h, "   ".to_string()).is_none());
    assert!(accept_line(&mut h, "".to_string()).is_none());
    assert_eq!(h.len(), 0);
    assert!(matches!(accept_line(&mut h, "exit 7".to_string()), Some(Ok(CommandAction::Exit(7)))));
    assert!(matches!(accept_line(&mut h, "'".to_string()), Some(Err(ShellError::Tokenize))));
    assert_eq!(h.entries(), &words(&["exit 7", "'"]));
}

#[test]
fn blank_lines() {
    assert!(is_blank(""));
    assert!(is_blank(" \t\u{3000}"));
    assert!(!is_blank(" a "));
}

#[test]
fn raw_newlines() {
    assert_eq!(to_raw_newlines("a\nb\n"), "a\r\nb\r\n");
    assert_eq!(to_raw_newlines("plain"), "plain");
}
