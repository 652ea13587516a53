use xcode_lsp_gen::args::Args;
use xcode_lsp_gen::commands::Output;
use xcode_lsp_gen::keys::{Input, KeyCode, KeyEvent, KeyEventKind};
use xcode_lsp_gen::program::{is_expected, run, Program, Task};
use xcode_lsp_gen::session::{Action, Event};

fn args() -> Args {
    Args {
        dir: b".".to_vec(),
        prefer_workspace: true,
        non_interactive: false,
        scheme: Some("S".to_string()),
        workspace: Some(b"W".to_vec()),
        project: None,
    }
}

fn told(task: &Task) -> String {
    match task {
        Task::Enter => "enter".to_string(),
        Task::Do(Action::Find(_)) => "find".to_string(),
        Task::Do(Action::Show(_)) => "show".to_string(),
        Task::Do(Action::Walk(_)) => "walk".to_string(),
        Task::Do(Action::Run(_)) => "run".to_string(),
        Task::Do(Action::Look) => "look".to_string(),
        Task::Do(Action::End(_)) => "end".to_string(),
        Task::Leave => "leave".to_string(),
        Task::Exit { status, message } => format!("exit {} {:?}", status, message),
    }
}

fn play(events: Vec<Event>) -> Vec<String> {
    let mut program = Program::Start;
    let mut log = Vec::new();
    for event in events {
        assert!(is_expected(&program, &event));
        let (next, task) = run(&args(), program, event);
        log.push(told(&task));
        program = next;
    }
    log
}

fn ran(success: bool) -> Event {
    Event::Ran(Output { success, stdout: Vec::new(), stderr: Vec::new() })
}

fn enter() -> Event {
    Event::Looked(Input::Key(KeyEvent {
        code: KeyCode::Enter,
        modifiers: 0,
        kind: KeyEventKind::Press,
    }))
}

fn failed(cause: &str) -> Event {
    Event::Failed(cause.to_string())
}

#[test]
fn a_program_that_goes_well() {
    let events = vec![
        Event::Begin,
        Event::Done,
        Event::Done,
        Event::Done,
        Event::Done,
        ran(true),
        enter(),
        Event::Done,
    ];
    assert_eq!(play(events), ["enter", "find", "find", "show", "run", "look", "leave", "exit 0 None"]);
}

#[test]
fn the_terminal_is_given_back_after_a_failure() {
    let events = vec![Event::Begin, Event::Done, failed("none"), Event::Done];
    assert_eq!(
        play(events),
        [
            "enter",
            "find",
            "leave",
            "exit 1 Some(\"Required tool not found in PATH: xcodebuild: none\")",
        ]
    );
}

#[test]
fn a_terminal_that_cannot_be_entered_is_not_left() {
    assert_eq!(play(vec![Event::Begin, failed("no tty")]), ["enter", "exit 1 Some(\"no tty\")"]);
}

#[test]
fn a_terminal_that_cannot_be_given_back_changes_nothing() {
    let events = vec![
        Event::Begin,
        Event::Done,
        Event::Done,
        Event::Done,
        Event::Done,
        ran(false),
        enter(),
        failed("stuck"),
    ];
    let log = play(events);
    assert_eq!(log[6], "leave");
    assert_eq!(log[7], "exit 1 Some(\"xcode-build-server config failed\")");
}

#[test]
fn nothing_is_expected_after_the_exit() {
    for event in [Event::Begin, Event::Done, failed("x"), ran(true)] {
        assert!(!is_expected(&Program::Gone, &event));
    }
}
