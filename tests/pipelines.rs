use rush::commands::{Builtin, ProcessRecord, RushStream};
use rush::context::Context;
use rush::error::ErrorKind;
use rush::runner::{ExternalCommand, InternalCommand, Reply, Request, Step, Stdin, Stdout};
use rush::shell::{process_line, LineAction, Plan};
use rush::value::{Primitive, Value};

fn ctx() -> Context {
    Context::with_builtins()
}

fn run_line(line: &str) -> Result<LineAction, rush::error::ShellError> {
    process_line(&ctx(), line, "/work".to_string())
}

fn proc(name: &str, pid: i64, memory: u64) -> ProcessRecord {
    ProcessRecord { name: name.to_string(), pid, memory }
}

#[test]
fn exit_and_blank_lines() {
    assert!(matches!(run_line("exit"), Ok(LineAction::Exit)));
    assert!(matches!(run_line("  exit \t"), Ok(LineAction::Exit)));
    assert!(matches!(run_line(""), Ok(LineAction::Blank)));
    assert!(matches!(run_line("   "), Ok(LineAction::Blank)));
    assert!(!matches!(run_line("exit now"), Ok(LineAction::Exit)));
}

#[test]
fn builtin_then_program_is_refused() {
    match run_line("ls | grep foo") {
        Err(e) => assert_eq!(e.kind, ErrorKind::UnsupportedTransport),
        Ok(_) => panic!("mixed pipeline accepted"),
    }
    match run_line("cat x | sortby name") {
        Err(e) => assert_eq!(e.kind, ErrorKind::UnsupportedTransport),
        Ok(_) => panic!("mixed pipeline accepted"),
    }
}

#[test]
fn malformed_lines_are_parse_errors() {
    for line in ["ls |", "ls | | rev", "ls ."] {
        match run_line(line) {
            Err(e) => assert_eq!(e.kind, ErrorKind::Parse),
            Ok(_) => panic!("accepted {:?}", line),
        }
    }
}

#[test]
fn programs_are_chained_by_pipes() {
    match run_line("echo hi there | wc -l") {
        Ok(LineAction::Run(Plan::Programs(sp))) => {
            assert_eq!(sp.len(), 2);
            assert_eq!(sp[0].program, "echo");
            assert_eq!(sp[0].args, vec!["hi", "there"]);
            assert_eq!(sp[0].stdin, Stdin::Inherit);
            assert_eq!(sp[0].stdout, Stdout::Pipe);
            assert_eq!(sp[1].program, "wc");
            assert_eq!(sp[1].args, vec!["-l"]);
            assert_eq!(sp[1].stdin, Stdin::PreviousStage);
            assert_eq!(sp[1].stdout, Stdout::Inherit);
        }
        _ => panic!("expected a program plan"),
    }
    match run_line("sleep 5") {
        Ok(LineAction::Run(Plan::Programs(sp))) => {
            assert_eq!(sp[0].args, vec!["5"]);
            assert_eq!(sp[0].stdin, Stdin::Inherit);
            assert_eq!(sp[0].stdout, Stdout::Inherit);
        }
        _ => panic!("expected a program plan"),
    }
}

#[test]
fn ps_sortby_memory_take_one() {
    let mut run = match run_line("ps | sortby memory | take 1") {
        Ok(LineAction::Run(Plan::Builtins(run))) => run,
        _ => panic!("expected a built-in plan"),
    };
    assert!(matches!(run.request(), Request::Processes));
    let snapshot = vec![proc("big", 1, 9000), proc("small", 2, 100), proc("mid", 3, 5000)];
    let step = run.advance(Reply::Processes(snapshot));
    assert!(matches!(step, Step::Ask(Request::Nothing)));
    let step = run.advance(Reply::Nothing);
    assert!(matches!(step, Step::Ask(Request::Nothing)));
    match run.advance(Reply::Nothing) {
        Step::Done(Value::List(l)) => {
            assert_eq!(l.len(), 1);
            assert_eq!(l[0].get_data_from_key("name").format(), "big");
            assert!(matches!(l[0].get_data_from_key("memory"), Value::Primitive(Primitive::Size(9000))));
        }
        _ => panic!("expected a one-element list"),
    }
    assert!(run.done);
}

#[test]
fn ps_sortby_memory_rev_take_one_gives_the_smallest() {
    let mut run = match run_line("ps | sortby memory | rev | take 1") {
        Ok(LineAction::Run(Plan::Builtins(run))) => run,
        _ => panic!("expected a built-in plan"),
    };
    let snapshot = vec![proc("big", 1, 9000), proc("small", 2, 100), proc("mid", 3, 5000)];
    let mut step = run.advance(Reply::Processes(snapshot));
    while let Step::Ask(_) = step {
        step = run.advance(Reply::Nothing);
    }
    match step {
        Step::Done(Value::List(l)) => assert_eq!(l[0].get_data_from_key("name").format(), "small"),
        _ => panic!("expected a list"),
    }
}

#[test]
fn ls_asks_for_its_directory_and_reports_errors() {
    let mut run = match run_line("ls src") {
        Ok(LineAction::Run(Plan::Builtins(run))) => run,
        _ => panic!("expected a built-in plan"),
    };
    match run.request() {
        Request::ListDir(p) => assert_eq!(p, "/work/src"),
        _ => panic!("expected a listing request"),
    }
    match run.advance(Reply::Listing(Err("permission denied".to_string()))) {
        Step::Failed(e) => {
            assert_eq!(e.title(), "permission denied");
            assert_eq!(e.kind, ErrorKind::Stage);
        }
        _ => panic!("expected a failure"),
    }
}

#[test]
fn cd_moves_the_current_directory() {
    let mut run = match run_line("cd /tmp | ls") {
        Ok(LineAction::Run(Plan::Builtins(run))) => run,
        _ => panic!("expected a built-in plan"),
    };
    match run.request() {
        Request::ChangeDir(p) => assert_eq!(p, "/tmp"),
        _ => panic!("expected a move"),
    }
    match run.advance(Reply::Moved(true)) {
        Step::Ask(Request::ListDir(p)) => assert_eq!(p, "/tmp"),
        _ => panic!("expected a listing of the new directory"),
    }
    assert_eq!(run.cwd, "/tmp");
}

#[test]
fn first_error_ends_the_run() {
    let mut run = match run_line("rev | take 1") {
        Ok(LineAction::Run(Plan::Builtins(run))) => run,
        _ => panic!("expected a built-in plan"),
    };
    match run.advance(Reply::Nothing) {
        Step::Failed(e) => assert_eq!(e.title(), "rev expects a list of objects"),
        _ => panic!("rev without input must fail"),
    }
    assert!(run.done);
}

#[test]
fn registry_lookups() {
    let mut c = ctx();
    assert_eq!(c.builtin("take"), Some(Builtin::Limit));
    assert_eq!(c.builtin("limit"), Some(Builtin::Limit));
    assert_eq!(c.builtin("sortby"), Some(Builtin::SortBy));
    assert_eq!(c.builtin("grep"), None);
    assert!(c.command_exists("ls"));
    assert!(!c.command_exists("grep"));
    c.generate_externals(vec!["grep".to_string(), "wc".to_string()]);
    assert!(c.command_exists("grep"));
    assert!(c.command_exists("wc"));
    assert!(!c.command_exists("gre"));
    c.insert_command("ls".to_string(), Builtin::Rev);
    assert_eq!(c.builtin("ls"), Some(Builtin::Rev));
    c.insert_commands(vec![("x".to_string(), Builtin::Ps), ("x".to_string(), Builtin::Cd)]);
    assert_eq!(c.builtin("x"), Some(Builtin::Cd));
}

#[test]
fn internal_command_runs_on_its_input() {
    let rev = InternalCommand { command: Builtin::Rev, args: vec![] };
    let input = RushStream::Internal(Value::list(vec![Value::integer(1), Value::integer(2)]));
    match rev.run(input, Reply::Nothing, &"/".to_string(), None) {
        Ok(Value::List(l)) => {
            assert!(matches!(l[0], Value::Primitive(Primitive::Integer(2))));
            assert!(matches!(l[1], Value::Primitive(Primitive::Integer(1))));
        }
        _ => panic!("expected a list"),
    }
    let ps = InternalCommand { command: Builtin::Ps, args: vec![] };
    match ps.run(RushStream::Empty, Reply::Processes(vec![proc("a", 7, 1)]), &"/".to_string(), None) {
        Ok(Value::List(l)) => assert_eq!(l[0].get_data_from_key("pid").format(), "7"),
        _ => panic!("expected a list"),
    }
}

#[test]
fn external_command_refuses_a_value_as_input() {
    let grep = || ExternalCommand { command: "grep".to_string(), args: vec!["foo".to_string()] };
    match grep().run(RushStream::Internal(Value::integer(1)), Stdout::Inherit) {
        Err(e) => {
            assert_eq!(e.kind, ErrorKind::UnsupportedTransport);
            assert_eq!(e.title(), "internal -> external not supported yet");
        }
        Ok(_) => panic!("a value must not flow into a program"),
    }
    let sp = grep().run(RushStream::External, Stdout::Pipe).unwrap();
    assert_eq!(sp.program, "grep");
    assert_eq!(sp.args, vec!["foo"]);
    assert_eq!(sp.stdin, Stdin::PreviousStage);
    assert_eq!(sp.stdout, Stdout::Pipe);
    let sp = grep().run(RushStream::Empty, Stdout::Inherit).unwrap();
    assert_eq!(sp.stdin, Stdin::Inherit);
}
