use alias_exe::args::InvocationArgs;
use alias_exe::cmd::{CapturedOutput, ExitOutcome};
use alias_exe::exec::{Action, DirectoryStack, Event, Run, Step};
use alias_exe::failure::FailureKind;
use alias_exe::script::ScriptValue;
use alias_exe::segment::Segment;

fn args(items: &[&str]) -> InvocationArgs {
    InvocationArgs::new(items.iter().map(|s| s.to_string()).collect()).unwrap()
}

fn run_of(body: &str) -> Run {
    Run::new(body, &args(&["prog"])).unwrap()
}

fn words(items: &[&str]) -> Vec<String> {
    items.iter().map(|s| s.to_string()).collect()
}

fn printed(text: &str) -> Event {
    Event::Captured(CapturedOutput {
        success: true,
        stdout: text.as_bytes().to_vec(),
        stderr: Vec::new(),
    })
}

fn failure_text(step: Step) -> String {
    match step {
        Step::Failed(f) => f.render("[", "]"),
        other => panic!("no failure: {:?}", other),
    }
}

#[test]
fn empty_body_finishes_at_once() {
    let (run, step) = run_of("").step(Event::Start);
    assert_eq!(step, Step::Finished);
    assert!(run.is_over());
    let (_, step) = run.step(Event::Start);
    assert_eq!(step, Step::Stopped);
}

#[test]
fn new_expands_arguments_and_segments() {
    let run = Run::new("echo $1\n@set N=$#", &args(&["prog", "a", "b"])).unwrap();
    assert_eq!(
        run.segments(),
        &vec![
            Segment::ShellLine("echo a".to_string()),
            Segment::ShellLine("@set N=2".to_string())
        ]
    );
    assert!(!run.is_over());
    assert_eq!(run.depth(), 0);
}

#[test]
fn new_fails_on_a_refused_token() {
    let failure = Run::new("echo $*", &args(&["prog"])).err().unwrap();
    assert_eq!(failure.kind, FailureKind::Substitution);
    assert_eq!(
        failure.render("[", "]"),
        "[failed]: $* is not supported, maybe \"$+\" ?\necho [$*]"
    );
}

#[test]
fn caret_at_line_end_stays_and_lines_stay_apart() {
    let run = run_of("echo a^\necho b");
    assert_eq!(
        run.segments(),
        &vec![Segment::ShellLine("echo a^".to_string()), Segment::ShellLine("echo b".to_string())]
    );
    let (run, step) = run.step(Event::Start);
    assert_eq!(step, Step::Do(Action::Spawn(words(&["echo", "a^"]))));
    let (_, step) = run.step(Event::Exited(ExitOutcome::Success));
    assert_eq!(step, Step::Do(Action::Spawn(words(&["echo", "b"]))));
}

#[test]
fn directives_are_dispatched_in_order() {
    let run = run_of("@set A=B\necho hi\n```ruby\nputs 1\n```\n@pushd dir\n@popd");
    let (run, step) = run.step(Event::Start);
    assert_eq!(step, Step::Do(Action::SetEnv("A".to_string(), "B".to_string())));
    let (run, step) = run.step(Event::Done);
    assert_eq!(step, Step::Do(Action::Spawn(words(&["echo", "hi"]))));
    let (run, step) = run.step(Event::Exited(ExitOutcome::Success));
    assert_eq!(step, Step::Do(Action::RunScript("puts 1".to_string())));
    let (run, step) = run.step(Event::Done);
    assert_eq!(step, Step::Do(Action::ChangeDir("dir".to_string())));
    assert_eq!(run.depth(), 0);
    let (run, step) = run.step(Event::DirChanged("/home/me".to_string()));
    assert_eq!(run.depth(), 0);
    assert_eq!(step, Step::Do(Action::RestoreDir("/home/me".to_string())));
    let (run, step) = run.step(Event::Done);
    assert_eq!(step, Step::Finished);
    assert!(run.is_over());
    assert_eq!(run.depth(), 0);
}

#[test]
fn pushd_saves_the_directory_left() {
    let run = run_of("@pushd a\n@pushd b\necho x");
    let (run, _) = run.step(Event::Start);
    let (run, step) = run.step(Event::DirChanged("/one".to_string()));
    assert_eq!(run.depth(), 1);
    assert_eq!(step, Step::Do(Action::ChangeDir("b".to_string())));
    let (run, step) = run.step(Event::DirChanged("/one/a".to_string()));
    assert_eq!(run.depth(), 2);
    assert_eq!(step, Step::Do(Action::Spawn(words(&["echo", "x"]))));
}

#[test]
fn failed_directory_change_leaves_the_stack_and_ends_the_run() {
    let run = run_of("@pushd nowhere\necho x");
    let (run, _) = run.step(Event::Start);
    let (run, step) = run.step(Event::Failed("no such directory".to_string()));
    assert_eq!(failure_text(step), "[failed]: @pushd nowhere: no such directory");
    assert_eq!(run.depth(), 0);
    assert!(run.is_over());
}

#[test]
fn popd_on_empty_stack_is_an_underflow() {
    let run = run_of("@popd\necho never");
    let (run, step) = run.step(Event::Start);
    match &step {
        Step::Failed(f) => assert_eq!(f.kind, FailureKind::Execution),
        other => panic!("no failure: {:?}", other),
    }
    assert_eq!(failure_text(step), "[failed]: @popd: directory stack empty");
    assert!(run.is_over());
    assert_eq!(run.depth(), 0);
    let (_, step) = run.step(Event::Done);
    assert_eq!(step, Step::Stopped);
}

#[test]
fn failed_restore_ends_the_run() {
    let run = run_of("@pushd a\n@popd");
    let (run, _) = run.step(Event::Start);
    let (run, _) = run.step(Event::DirChanged("/gone".to_string()));
    let (run, step) = run.step(Event::Failed("not found".to_string()));
    assert_eq!(failure_text(step), "[failed]: @popd: not found");
    assert_eq!(run.depth(), 0);
}

#[test]
fn command_with_status_two_aborts_the_run() {
    let run = run_of("first\nsecond\nthird");
    let (run, step) = run.step(Event::Start);
    assert_eq!(step, Step::Do(Action::Spawn(words(&["first"]))));
    let (run, step) = run.step(Event::Exited(ExitOutcome::NonZero(2)));
    assert_eq!(failure_text(step), "[failed]: exit code: 2");
    assert!(run.is_over());
    let (run, step) = run.step(Event::Exited(ExitOutcome::Success));
    assert_eq!(step, Step::Stopped);
    let (_, step) = run.step(Event::Start);
    assert_eq!(step, Step::Stopped);
}

#[test]
fn abnormal_end_aborts_the_run() {
    let run = run_of("first\nsecond");
    let (run, _) = run.step(Event::Start);
    let (run, step) = run.step(Event::Exited(ExitOutcome::Abnormal));
    assert_eq!(failure_text(step), "[failed]: terminated abnormally");
    assert!(run.is_over());
}

#[test]
fn command_that_cannot_start_aborts_the_run() {
    let run = run_of("first\nsecond");
    let (run, _) = run.step(Event::Start);
    let (run, step) = run.step(Event::Failed("program not found".to_string()));
    assert_eq!(failure_text(step), "program not found");
    assert!(run.is_over());
}

#[test]
fn failing_script_reports_message_and_source() {
    let run = run_of("```ruby\nraise 'x'\n```\necho never");
    let (run, step) = run.step(Event::Start);
    assert_eq!(step, Step::Do(Action::RunScript("raise 'x'".to_string())));
    let (run, step) = run.step(Event::Failed("RuntimeError: x".to_string()));
    match &step {
        Step::Failed(f) => assert_eq!(f.kind, FailureKind::Script),
        other => panic!("no failure: {:?}", other),
    }
    assert_eq!(failure_text(step), "[mruby failed]: RuntimeError: x\n\nraise 'x'");
    assert!(run.is_over());
}

#[test]
fn inner_command_is_captured_before_the_outer() {
    let run = run_of("$($(echo a))");
    let (run, step) = run.step(Event::Start);
    assert_eq!(step, Step::Do(Action::Capture(words(&["echo", "a"]))));
    let (run, step) = run.step(printed("a\n"));
    assert_eq!(step, Step::Do(Action::Capture(words(&["a"]))));
    let (run, step) = run.step(printed("  result  \r\n"));
    assert_eq!(step, Step::Do(Action::Spawn(words(&["result"]))));
    let (_, step) = run.step(Event::Exited(ExitOutcome::Success));
    assert_eq!(step, Step::Finished);
}

#[test]
fn expression_value_is_spliced_into_the_line() {
    let run = run_of("echo <%= 1+1 %> <%= 'x' %>");
    let (run, step) = run.step(Event::Start);
    assert_eq!(step, Step::Do(Action::Evaluate(" 1+1 ".to_string())));
    let (run, step) = run.step(Event::Evaluated(ScriptValue::Int(2)));
    assert_eq!(step, Step::Do(Action::Evaluate(" 'x' ".to_string())));
    let (_, step) = run.step(Event::Evaluated(ScriptValue::Str("x".to_string())));
    assert_eq!(step, Step::Do(Action::Spawn(words(&["echo", "2", "x"]))));
}

#[test]
fn substitution_can_make_a_directive() {
    let run = run_of("@set HERE=$(cd)");
    let (run, step) = run.step(Event::Start);
    assert_eq!(step, Step::Do(Action::Capture(words(&["cd"]))));
    let (_, step) = run.step(printed("C:\\work\r\n"));
    assert_eq!(step, Step::Do(Action::SetEnv("HERE".to_string(), "C:\\work".to_string())));
}

#[test]
fn substitutions_in_script_blocks_are_resolved() {
    let run = run_of("```ruby\nputs $(hostname)\n```");
    let (run, step) = run.step(Event::Start);
    assert_eq!(step, Step::Do(Action::Capture(words(&["hostname"]))));
    let (_, step) = run.step(printed("box\n"));
    assert_eq!(step, Step::Do(Action::RunScript("puts box".to_string())));
}

#[test]
fn failing_capture_is_decorated_with_the_line() {
    let run = run_of("echo $(bad) end\necho never");
    let (run, _) = run.step(Event::Start);
    let (run, step) = run.step(Event::Captured(CapturedOutput {
        success: false,
        stdout: Vec::new(),
        stderr: b"bad: not found".to_vec(),
    }));
    assert_eq!(failure_text(step), "bad: not found\necho [$(bad)] end");
    assert!(run.is_over());
}

#[test]
fn failing_expression_is_decorated_with_the_line() {
    let run = run_of("echo <%= nope %>");
    let (run, _) = run.step(Event::Start);
    let (_, step) = run.step(Event::Failed("NameError".to_string()));
    assert_eq!(
        failure_text(step),
        "[mruby failed]: NameError\n\n nope \necho [<%= nope %>]"
    );
}

#[test]
fn value_without_text_fails_the_run() {
    let run = run_of("echo <%= x %>");
    let (run, _) = run.step(Event::Start);
    let (_, step) = run.step(Event::Evaluated(ScriptValue::Other));
    assert_eq!(
        failure_text(step),
        "[mruby failed]: unknown value type\necho [<%= x %>]"
    );
}

#[test]
fn nesting_is_validated_before_anything_is_asked() {
    let run = run_of("echo ok\necho $(a\necho never");
    let (run, step) = run.step(Event::Start);
    assert_eq!(step, Step::Do(Action::Spawn(words(&["echo", "ok"]))));
    let (run, step) = run.step(Event::Exited(ExitOutcome::Success));
    assert_eq!(
        failure_text(step),
        "[failed]: nested command syntax error\n\necho [$(]a"
    );
    assert!(run.is_over());
}

#[test]
fn malformed_directive_fails_when_its_turn_comes() {
    let run = run_of("echo ok\n@set A\necho never");
    let (run, _) = run.step(Event::Start);
    let (run, step) = run.step(Event::Exited(ExitOutcome::Success));
    assert_eq!(failure_text(step), "[failed]: illegal @set format\n\n[@set] A");
    assert!(run.is_over());
}

#[test]
fn event_that_answers_nothing_fails_the_run() {
    let (run, step) = run_of("echo a").step(Event::Done);
    assert_eq!(failure_text(step), "[failed]: unexpected event");
    assert!(run.is_over());

    let (run, _) = run_of("echo a").step(Event::Start);
    let (_, step) = run.step(Event::Done);
    assert_eq!(failure_text(step), "[failed]: unexpected event");

    let (run, _) = run_of("echo $(a)").step(Event::Start);
    let (_, step) = run.step(Event::Evaluated(ScriptValue::Int(1)));
    assert_eq!(failure_text(step), "[failed]: unexpected event");
}

#[test]
fn directory_stack_pushes_and_pops() {
    let mut stack = DirectoryStack::new();
    assert_eq!(stack.depth(), 0);
    let failure = stack.popd().unwrap_err();
    assert_eq!(failure.text(), "failed: @popd: directory stack empty");
    assert_eq!(stack.depth(), 0);
    stack.pushd("/a".to_string());
    stack.pushd("/b".to_string());
    assert_eq!(stack.depth(), 2);
    assert_eq!(stack.popd().unwrap(), "/b");
    assert_eq!(stack.popd().unwrap(), "/a");
    assert_eq!(stack.depth(), 0);
    assert!(stack.popd().is_err());
}

#[test]
fn run_prepares_and_takes_the_first_step() {
    let (machine, step) = alias_exe::exec::run("echo $1", &args(&["prog", "hi"])).unwrap();
    assert_eq!(step, Step::Do(Action::Spawn(words(&["echo", "hi"]))));
    assert!(!machine.is_over());
    let (machine, step) = alias_exe::exec::run("", &args(&["prog"])).unwrap();
    assert_eq!(step, Step::Finished);
    assert!(machine.is_over());
    assert!(alias_exe::exec::run("$@", &args(&["prog"])).is_err());
}
