use myshell::error::ExecError;
use myshell::execution::{Action, Awaiting, Event, Execution};
use myshell::instruction::StdoutTo;
use myshell::session::Session;
use myshell::text_processing::ParseError;

fn session() -> Session {
    Session::new("/start".to_string())
}

fn begin(s: &mut Session, line: &str, as_subcommand: bool) -> (Execution, Action) {
    s.execute_line(line, as_subcommand, Some("/home/user".to_string()))
}

fn text(t: &str) -> Event {
    Event::Text(t.to_string())
}

fn words(list: &[&str]) -> Vec<String> {
    list.iter().map(|w| w.to_string()).collect()
}

fn spawn(list: &[&str], piped_input: bool, to: StdoutTo, filename: &str, wait: bool) -> Action {
    Action::Spawn {
        command: words(list),
        piped_input,
        to,
        filename: filename.to_string(),
        wait,
    }
}

#[test]
fn subcommand_is_resolved_before_its_stage_runs() {
    let mut s = session();
    let (mut run, action) = begin(&mut s, "echo ${echo inner}", false);
    assert_eq!(action, Action::Subcommand("echo inner".to_string()));
    let action = run.resume(&mut s, text("  inner\n"));
    assert_eq!(action, spawn(&["echo", "inner"], false, StdoutTo::Stdout, "", true));
    let action = run.resume(&mut s, Event::Exited(0));
    assert_eq!(action, Action::Completed(None));
    assert_eq!(s.exit_code, "0");
}

#[test]
fn subcommands_are_resolved_in_ascending_order() {
    let mut s = session();
    let (mut run, action) = begin(&mut s, "cp ${first} mid ${second}", false);
    assert_eq!(action, Action::Subcommand("first".to_string()));
    let action = run.resume(&mut s, text("a"));
    assert_eq!(action, Action::Subcommand("second".to_string()));
    let action = run.resume(&mut s, text("b\r\n"));
    assert_eq!(action, spawn(&["cp", "a", "mid", "b"], false, StdoutTo::Stdout, "", true));
}

#[test]
fn ls_gets_its_flag_and_keeps_its_subcommands() {
    let mut s = session();
    let (mut run, action) = begin(&mut s, "ls ${echo dir} -l", false);
    assert_eq!(action, Action::Subcommand("echo dir".to_string()));
    let action = run.resume(&mut s, text("dir\n"));
    assert_eq!(
        action,
        spawn(&["ls", "--color=auto", "dir", "-l"], false, StdoutTo::Stdout, "", true)
    );
}

#[test]
fn program_named_by_a_subcommand_is_dispatched_by_its_output() {
    let mut s = session();
    let (mut run, action) = begin(&mut s, "${echo pwd}", false);
    assert_eq!(action, Action::Subcommand("echo pwd".to_string()));
    let action = run.resume(&mut s, text("pwd\n"));
    assert_eq!(
        action,
        Action::Write {
            text: "/start\r\n".to_string(),
            to: StdoutTo::Stdout,
            filename: String::new()
        }
    );
}

#[test]
fn exit_status_is_recorded() {
    for (event, status) in [
        (Event::Exited(0), "0"),
        (Event::Exited(3), "3"),
        (Event::Exited(127), "127"),
        (Event::Exited(-5), "-5"),
        (Event::Exited(i32::MIN), "-2147483648"),
        (Event::Exited(i32::MAX), "2147483647"),
        (Event::Signaled, "!"),
        (Event::WaitFailed, "?"),
    ] {
        let mut s = session();
        let (mut run, _) = begin(&mut s, "false", false);
        assert_eq!(run.resume(&mut s, event), Action::Completed(None));
        assert_eq!(s.exit_code, status);
    }
}

#[test]
fn program_that_does_not_start_aborts_the_line() {
    let mut s = session();
    let (mut run, action) = begin(&mut s, "nosuch a | cat", false);
    assert_eq!(action, spawn(&["nosuch", "a"], false, StdoutTo::Pipe, "", false));
    let action = run.resume(&mut s, Event::SpawnFailed);
    assert_eq!(action, Action::Failed(ExecError::CommandNotFound("nosuch".to_string())));
    assert_eq!(s.exit_code, "?");
    match action {
        Action::Failed(e) => assert_eq!(e.message(), "Command 'nosuch' not found."),
        _ => unreachable!(),
    }
    assert_eq!(run.awaiting, Awaiting::Nothing);
    assert_eq!(run.resume(&mut s, Event::Done), Action::Failed(ExecError::Unexpected));
}

#[test]
fn pipeline_is_wired_stage_by_stage() {
    let mut s = session();
    let (mut run, action) = begin(&mut s, "cat f | sort | uniq > out", false);
    assert_eq!(action, spawn(&["cat", "f"], false, StdoutTo::Pipe, "", false));
    assert!(run.pending_pipe);
    let action = run.resume(&mut s, Event::Done);
    assert_eq!(action, spawn(&["sort"], true, StdoutTo::Pipe, "", false));
    assert!(run.pending_pipe);
    let action = run.resume(&mut s, Event::Done);
    assert_eq!(action, spawn(&["uniq"], true, StdoutTo::File('o'), "out", true));
    assert!(!run.pending_pipe);
    let action = run.resume(&mut s, Event::Exited(1));
    assert_eq!(action, Action::Completed(None));
    assert_eq!(s.exit_code, "1");
}

#[test]
fn append_mode_is_handed_on() {
    let mut s = session();
    let (_, action) = begin(&mut s, "echo hi >> log", false);
    assert_eq!(action, spawn(&["echo", "hi"], false, StdoutTo::File('a'), "log", true));
}

#[test]
fn missing_file_name_fails_before_anything_runs() {
    for line in ["echo hi >", "echo hi >>", "pwd >", "cd /tmp >", "nosuch >"] {
        let mut s = session();
        let (run, action) = begin(&mut s, line, false);
        let program = line.split(' ').next().unwrap();
        assert_eq!(action, Action::Failed(ExecError::MissingOutputFile(program.to_string())));
        match action {
            Action::Failed(e) => {
                assert_eq!(
                    e.message(),
                    format!("please specify target file for output of '{}'", program)
                );
            }
            _ => unreachable!(),
        }
        assert_eq!(s.exit_code, "!");
        assert_eq!(s.cwd, "/start");
        assert_eq!(run.awaiting, Awaiting::Nothing);
    }
}

#[test]
fn missing_file_name_in_a_later_stage_fails_there() {
    let mut s = session();
    let (mut run, action) = begin(&mut s, "echo hi | cat >", false);
    assert_eq!(action, spawn(&["echo", "hi"], false, StdoutTo::Pipe, "", false));
    let action = run.resume(&mut s, Event::Done);
    assert_eq!(action, Action::Failed(ExecError::MissingOutputFile("cat".to_string())));
}

#[test]
fn subcommand_always_hands_back_a_text() {
    let mut s = session();
    let (_, action) = begin(&mut s, "", true);
    assert_eq!(action, Action::Completed(Some(String::new())));

    let (mut run, action) = begin(&mut s, "cd /tmp", true);
    assert_eq!(action, Action::ChangeDirectory("/tmp".to_string()));
    assert_eq!(run.resume(&mut s, text("/tmp")), Action::Completed(Some(String::new())));

    let (mut run, action) = begin(&mut s, "true", true);
    assert_eq!(action, spawn(&["true"], false, StdoutTo::Pipe, "", true));
    assert_eq!(run.resume(&mut s, Event::Exited(0)), Action::Drain);
    assert_eq!(run.resume(&mut s, text("")), Action::Completed(Some(String::new())));

    let (mut run, action) = begin(&mut s, "echo hi > f", true);
    assert_eq!(action, spawn(&["echo", "hi"], false, StdoutTo::File('o'), "f", true));
    assert_eq!(run.resume(&mut s, Event::Exited(0)), Action::Completed(Some(String::new())));
}

#[test]
fn subcommand_output_is_trimmed() {
    let mut s = session();
    let (mut run, action) = begin(&mut s, "echo a | tr a b", true);
    assert_eq!(action, spawn(&["echo", "a"], false, StdoutTo::Pipe, "", false));
    let action = run.resume(&mut s, Event::Done);
    assert_eq!(action, spawn(&["tr", "a", "b"], true, StdoutTo::Pipe, "", true));
    assert_eq!(run.resume(&mut s, Event::Exited(0)), Action::Drain);
    assert_eq!(
        run.resume(&mut s, text("\n  b c \t\r\n")),
        Action::Completed(Some("b c".to_string()))
    );
}

#[test]
fn top_level_line_hands_back_nothing() {
    let mut s = session();
    let (_, action) = begin(&mut s, "   ", false);
    assert_eq!(action, Action::Completed(None));
}

#[test]
fn pushd_then_popd_restores_the_directory() {
    let mut s = session();
    let (mut run, action) = begin(&mut s, "pushd /tmp", false);
    assert_eq!(action, Action::ChangeDirectory("/tmp".to_string()));
    assert_eq!(run.resume(&mut s, text("/tmp")), Action::Completed(None));
    assert_eq!(s.cwd, "/tmp");
    assert_eq!(s.dir_stack, vec!["/start".to_string(), "/tmp".to_string()]);

    let (mut run, action) = begin(&mut s, "popd", false);
    assert_eq!(action, Action::ChangeDirectory("/start".to_string()));
    assert_eq!(run.resume(&mut s, text("/start")), Action::Completed(None));
    assert_eq!(s.cwd, "/start");
    assert!(s.dir_stack.is_empty());
}

#[test]
fn popd_goes_back_one_directory_at_a_time() {
    let mut s = session();
    for dir in ["/a", "/b", "/c"] {
        let (mut run, _) = begin(&mut s, &format!("pushd {}", dir), false);
        run.resume(&mut s, text(dir));
    }
    assert_eq!(s.dir_stack.len(), 4);
    let (mut run, action) = begin(&mut s, "popd", false);
    assert_eq!(action, Action::ChangeDirectory("/b".to_string()));
    run.resume(&mut s, text("/b"));
    assert_eq!(s.dir_stack, vec!["/start".to_string(), "/a".to_string(), "/b".to_string()]);
    let (mut run, action) = begin(&mut s, "popd", false);
    assert_eq!(action, Action::ChangeDirectory("/a".to_string()));
    run.resume(&mut s, text("/a"));
    let (mut run, action) = begin(&mut s, "popd", false);
    assert_eq!(action, Action::ChangeDirectory("/start".to_string()));
    run.resume(&mut s, text("/start"));
    assert!(s.dir_stack.is_empty());
    assert_eq!(s.cwd, "/start");
}

#[test]
fn popd_on_empty_stack_fails() {
    let mut s = session();
    let (run, action) = begin(&mut s, "popd", false);
    assert_eq!(action, Action::Failed(ExecError::EmptyDirectoryStack));
    assert_eq!(ExecError::EmptyDirectoryStack.message(), "directory stack empty");
    assert_eq!(s.cwd, "/start");
    assert!(s.dir_stack.is_empty());
    assert_eq!(s.exit_code, "!");
    assert_eq!(run.awaiting, Awaiting::Nothing);
}

#[test]
fn pushd_without_directory_fails() {
    let mut s = session();
    let (_, action) = begin(&mut s, "pushd", false);
    assert_eq!(action, Action::Failed(ExecError::MissingDirectory));
    assert_eq!(ExecError::MissingDirectory.message(), "please specify a directory");
    assert_eq!(s.exit_code, "!");
    assert!(s.dir_stack.is_empty());
    assert_eq!(s.cwd, "/start");
}

#[test]
fn failed_directory_change_leaves_the_session_alone() {
    let mut s = session();
    let (mut run, action) = begin(&mut s, "pushd /nowhere", false);
    assert_eq!(action, Action::ChangeDirectory("/nowhere".to_string()));
    let refusal = ExecError::Io("No such file or directory".to_string());
    assert_eq!(run.resume(&mut s, Event::Failed(refusal.clone())), Action::Failed(refusal));
    assert_eq!(s.cwd, "/start");
    assert!(s.dir_stack.is_empty());
    assert_eq!(s.exit_code, "0");
}

#[test]
fn cd_goes_home_without_an_argument() {
    let mut s = session();
    let (mut run, action) = begin(&mut s, "cd", false);
    assert_eq!(action, Action::ChangeDirectory("/home/user".to_string()));
    assert_eq!(run.resume(&mut s, text("/home/user")), Action::Completed(None));
    assert_eq!(s.cwd, "/home/user");

    let (mut run, action) = begin(&mut s, "cd ..", false);
    assert_eq!(action, Action::ChangeDirectory("..".to_string()));
    assert_eq!(run.resume(&mut s, text("/home")), Action::Completed(None));
    assert_eq!(s.cwd, "/home");
    assert!(s.dir_stack.is_empty());
}

#[test]
fn cd_without_home_fails() {
    let mut s = session();
    let (_, action) = s.execute_line("cd", false, None);
    assert_eq!(action, Action::Failed(ExecError::HomeUnavailable));
    assert_eq!(ExecError::HomeUnavailable.message(), "Failed to retrieve home directory.");
    let (_, action) = s.execute_line("cd /tmp", false, None);
    assert_eq!(action, Action::ChangeDirectory("/tmp".to_string()));
}

#[test]
fn line_that_does_not_parse_fails() {
    let mut s = session();
    let (run, action) = s.execute_line("ls ~", false, None);
    assert_eq!(action, Action::Failed(ExecError::Parse(ParseError::HomeUnavailable)));
    assert_eq!(run.awaiting, Awaiting::Nothing);
    match action {
        Action::Failed(e) => assert_eq!(e.message(), "Failed to retrieve home directory."),
        _ => unreachable!(),
    }
}

#[test]
fn pwd_writes_the_directory() {
    let mut s = session();
    let (mut run, action) = begin(&mut s, "pwd", false);
    assert_eq!(
        action,
        Action::Write {
            text: "/start\r\n".to_string(),
            to: StdoutTo::Stdout,
            filename: String::new()
        }
    );
    assert_eq!(run.resume(&mut s, Event::Done), Action::Completed(None));

    let (_, action) = begin(&mut s, "pwd >> where", false);
    assert_eq!(
        action,
        Action::Write {
            text: "/start\r\n".to_string(),
            to: StdoutTo::File('a'),
            filename: "where".to_string()
        }
    );
}

#[test]
fn builtin_pipes_into_the_next_stage() {
    let mut s = session();
    let (mut run, action) = begin(&mut s, "pwd | cat", false);
    assert_eq!(
        action,
        Action::Write { text: "/start\r\n".to_string(), to: StdoutTo::Pipe, filename: String::new() }
    );
    assert!(run.pending_pipe);
    let action = run.resume(&mut s, Event::Done);
    assert_eq!(action, spawn(&["cat"], true, StdoutTo::Stdout, "", true));
    assert!(!run.pending_pipe);
}

#[test]
fn silent_builtin_still_opens_its_pipe() {
    let mut s = session();
    let (mut run, action) = begin(&mut s, "cd /tmp | cat", false);
    assert_eq!(action, Action::ChangeDirectory("/tmp".to_string()));
    let action = run.resume(&mut s, text("/tmp"));
    assert_eq!(
        action,
        Action::Write { text: String::new(), to: StdoutTo::Pipe, filename: String::new() }
    );
    let action = run.resume(&mut s, Event::Done);
    assert_eq!(action, spawn(&["cat"], true, StdoutTo::Stdout, "", true));
}

#[test]
fn silent_builtin_writes_nothing() {
    let mut s = Session::new(String::new());
    let (_, action) = begin(&mut s, "pwd > f", false);
    assert_eq!(action, Action::Completed(None));
    let (mut run, action) = begin(&mut s, "cd /x > f", false);
    assert_eq!(action, Action::ChangeDirectory("/x".to_string()));
    assert_eq!(run.resume(&mut s, text("/x")), Action::Completed(None));
}

#[test]
fn history_is_listed_with_numbers() {
    let mut s = session();
    let (mut run, action) = begin(&mut s, "history", false);
    assert_eq!(action, Action::ReadHistory);
    let action = run.resume(&mut s, text("ls\ncd /tmp\r\necho a | cat\n"));
    assert_eq!(
        action,
        Action::Write {
            text: "0 ls\n1 cd /tmp\n2 echo a | cat\r\n".to_string(),
            to: StdoutTo::Stdout,
            filename: String::new()
        }
    );
    assert_eq!(run.resume(&mut s, Event::Done), Action::Completed(None));
}

#[test]
fn empty_history_lists_nothing() {
    let mut s = session();
    let (mut run, action) = begin(&mut s, "history", false);
    assert_eq!(action, Action::ReadHistory);
    assert_eq!(run.resume(&mut s, text("")), Action::Completed(None));
}

#[test]
fn unexpected_report_fails_the_line() {
    let mut s = session();
    let (mut run, _) = begin(&mut s, "echo a", false);
    assert_eq!(run.resume(&mut s, text("x")), Action::Failed(ExecError::Unexpected));
    let (mut run, _) = begin(&mut s, "history", false);
    assert_eq!(run.resume(&mut s, Event::Exited(0)), Action::Failed(ExecError::Unexpected));
    let (mut run, _) = begin(&mut s, "cd /", false);
    assert_eq!(run.resume(&mut s, Event::Done), Action::Failed(ExecError::Unexpected));
}

#[test]
fn failed_subcommand_fails_the_line() {
    let mut s = session();
    let (mut run, action) = begin(&mut s, "echo ${nosuch}", false);
    assert_eq!(action, Action::Subcommand("nosuch".to_string()));
    let inner = ExecError::CommandNotFound("nosuch".to_string());
    assert_eq!(run.resume(&mut s, Event::Failed(inner.clone())), Action::Failed(inner));
}

#[test]
fn stage_after_a_file_route_reads_the_terminal() {
    let mut s = session();
    let (mut run, action) = begin(&mut s, "echo a > f | cat", false);
    assert_eq!(action, spawn(&["echo", "a"], false, StdoutTo::File('o'), "f", false));
    let action = run.resume(&mut s, Event::Done);
    assert_eq!(action, spawn(&["cat"], false, StdoutTo::Stdout, "", true));
}

#[test]
fn execute_input_begins_like_execute_line() {
    let mut s = session();
    let (mut run, action) = s.execute_input("echo hello | cat", false);
    assert_eq!(action, spawn(&["echo", "hello"], false, StdoutTo::Pipe, "", false));
    let action = run.resume(&mut s, Event::Done);
    assert_eq!(action, spawn(&["cat"], true, StdoutTo::Stdout, "", true));
}

#[test]
fn run_stays_well_formed() {
    let mut s = session();
    let (mut run, _) = begin(&mut s, "ls ${a} | pwd > f | popd", false);
    assert!(run.is_well_formed());
    assert_eq!(run.awaiting, Awaiting::Subcommand);
    run.resume(&mut s, text("x"));
    assert!(run.is_well_formed());
    run.resume(&mut s, Event::Done);
    assert!(run.is_well_formed());
    run.resume(&mut s, Event::Done);
    assert!(run.is_well_formed() && s.is_well_formed());

    let mut broken = run.clone();
    broken.index = 7;
    assert!(!broken.is_well_formed());
    let mut broken = run.clone();
    broken.index = 0;
    broken.slot = 5;
    assert!(!broken.is_well_formed());
    let mut broken = run.clone();
    broken.stages[0].command.clear();
    assert!(!broken.is_well_formed());
    let mut broken = run.clone();
    broken.index = 3;
    broken.awaiting = Awaiting::Spawned;
    assert!(!broken.is_well_formed());
    let mut broken = run.clone();
    broken.index = 3;
    broken.awaiting = Awaiting::Drained;
    assert!(!broken.is_well_formed());
    broken.as_subcommand = true;
    assert!(broken.is_well_formed());
}
