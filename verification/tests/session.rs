use xcode_lsp_gen::args::Args;
use xcode_lsp_gen::commands::{Argument, Invocation, Output, Tool};
use xcode_lsp_gen::failures::Failure;
use xcode_lsp_gen::keys::{Input, KeyCode, KeyEvent, KeyEventKind};
use xcode_lsp_gen::screens::Screen;
use xcode_lsp_gen::session::{is_expected, run_tui, Action, Event, State};
use xcode_lsp_gen::targets::WalkItem;

const LISTING: &str = "Information about workspace \"A\":\n    Schemes:\n        App\n        Kit\n";

fn args() -> Args {
    Args {
        dir: b"src".to_vec(),
        prefer_workspace: true,
        non_interactive: false,
        scheme: None,
        workspace: None,
        project: None,
    }
}

fn dir(path: &str) -> WalkItem {
    WalkItem::Entry { path: path.as_bytes().to_vec(), is_dir: true }
}

fn tree() -> Event {
    Event::Walked(vec![dir("src"), dir("src/P.xcodeproj"), dir("src/W.xcworkspace")])
}

fn ran(success: bool, stdout: &str, stderr: &str) -> Event {
    Event::Ran(Output {
        success,
        stdout: stdout.as_bytes().to_vec(),
        stderr: stderr.as_bytes().to_vec(),
    })
}

fn press(code: KeyCode) -> Event {
    Event::Looked(Input::Key(KeyEvent { code, modifiers: 0, kind: KeyEventKind::Press }))
}

fn words(call: &Invocation) -> String {
    let mut words = vec![call.tool.name().to_string()];
    for argument in &call.arguments {
        words.push(match argument {
            Argument::Text(text) => text.clone(),
            Argument::Path(path) => String::from_utf8(path.clone()).unwrap(),
        });
    }
    words.join(" ")
}

fn shown(screen: &Screen) -> String {
    match screen {
        Screen::Running { title, body, hint } => format!("{}|{}|{}", title, body, hint),
        Screen::PickTarget { items, selected, hint } => {
            format!("{} targets, {} selected|{}", items.len(), selected, hint)
        }
        Screen::PickScheme { target, items, selected, hint } => {
            format!("{} {} of {}, {} selected|{}", target.kind(), items.join(","), items.len(), selected, hint)
        }
        Screen::Done { summary, details, scroll, hint } => {
            format!("done|{}|{}|{}|{}", summary, details, scroll, hint)
        }
        Screen::Error { summary, details, scroll, hint } => {
            format!("error|{}|{}|{}|{}", summary, details, scroll, hint)
        }
    }
}

fn told(state: &State, action: &Action) -> String {
    match action {
        Action::Find(tool) => format!("find {}", tool.name()),
        Action::Show(screen) => format!("show {}", shown(screen)),
        Action::Walk(root) => format!("walk {}", String::from_utf8(root.clone()).unwrap()),
        Action::Run(call) => format!("run {}", words(call)),
        Action::Look => format!("look {}", shown(state.screen().unwrap())),
        Action::End(Ok(())) => "end".to_string(),
        Action::End(Err(failure)) => format!("fail {}", failure.message()),
    }
}

fn play(args: &Args, events: Vec<Event>) -> (State, Vec<String>) {
    let mut state = State::Start;
    let mut log = Vec::new();
    for event in events {
        assert!(is_expected(&state, &event));
        let (next, action) = run_tui(args, state, event);
        log.push(told(&next, &action));
        state = next;
    }
    (state, log)
}

#[test]
fn a_full_session() {
    let (state, log) = play(
        &args(),
        vec![
            Event::Begin,
            Event::Done,
            Event::Done,
            Event::Done,
            tree(),
            press(KeyCode::Down),
            Event::Looked(Input::Nothing),
            press(KeyCode::Up),
            press(KeyCode::Enter),
            Event::Done,
            ran(true, LISTING, ""),
            press(KeyCode::Char('j')),
            press(KeyCode::Enter),
            Event::Done,
            ran(true, "written\n", "warned\n"),
            press(KeyCode::Down),
            press(KeyCode::Enter),
        ],
    );
    let keys = "↑/↓ (or j/k) move • Enter select • q/Esc quit";
    let finish = "Up/Down scroll • Enter/q/Esc exit";
    assert_eq!(
        log,
        [
            "find xcodebuild".to_string(),
            "find xcode-build-server".to_string(),
            "show Scanning…|Root: src|Please wait".to_string(),
            "walk src".to_string(),
            format!("look 2 targets, 0 selected|{}", keys),
            format!("look 2 targets, 1 selected|{}", keys),
            format!("look 2 targets, 1 selected|{}", keys),
            format!("look 2 targets, 0 selected|{}", keys),
            "show Listing schemes…|Using workspace: src/W.xcworkspace|Please wait".to_string(),
            "run xcodebuild -list -workspace src/W.xcworkspace".to_string(),
            format!("look workspace App,Kit of 2, 0 selected|{}", keys),
            format!("look workspace App,Kit of 2, 1 selected|{}", keys),
            "show Generating buildServer.json…|Target: workspace: src/W.xcworkspace\nScheme: Kit\n\n(If this hangs, it’s xcodebuild being xcodebuild.)|Please wait".to_string(),
            "run xcode-build-server config -workspace src/W.xcworkspace -scheme Kit".to_string(),
            format!("look done|Config generated successfully|written\n\nwarned|0|{}", finish),
            format!("look done|Config generated successfully|written\n\nwarned|1|{}", finish),
            "end".to_string(),
        ]
    );
    assert!(matches!(state, State::Ended));
    for work in ["find xcodebuild", "find xcode-build-server", "walk", "run xcodebuild", "run xcode-build-server"] {
        assert_eq!(log.iter().filter(|told| told.starts_with(work)).count(), 1);
    }
}

#[test]
fn without_interaction_the_first_of_each_is_taken() {
    let mut a = args();
    a.non_interactive = true;
    a.prefer_workspace = false;
    let (_, log) = play(
        &a,
        vec![
            Event::Begin,
            Event::Done,
            Event::Done,
            Event::Done,
            tree(),
            Event::Done,
            ran(true, LISTING, ""),
            Event::Done,
        ],
    );
    assert_eq!(log[4], "show Listing schemes…|Using project: src/P.xcodeproj|Please wait");
    assert_eq!(log[7], "run xcode-build-server config -project src/P.xcodeproj -scheme App");
}

#[test]
fn given_target_and_scheme_skip_scan_and_listing() {
    let mut a = args();
    a.project = Some(b"X.xcodeproj".to_vec());
    a.scheme = Some("S".to_string());
    let (_, log) = play(&a, vec![Event::Begin, Event::Done, Event::Done, Event::Done]);
    assert!(log[2].starts_with("show Generating buildServer.json…|Target: project: X.xcodeproj\nScheme: S\n"));
    assert_eq!(log[3], "run xcode-build-server config -project X.xcodeproj -scheme S");
}

#[test]
fn a_given_workspace_is_listed_without_a_scan() {
    let mut a = args();
    a.workspace = Some(b"X.xcworkspace".to_vec());
    a.project = Some(b"ignored".to_vec());
    let (_, log) = play(&a, vec![Event::Begin, Event::Done, Event::Done, Event::Done]);
    assert_eq!(log[3], "run xcodebuild -list -workspace X.xcworkspace");
}

fn last(args: &Args, events: Vec<Event>) -> String {
    play(args, events).1.pop().unwrap()
}

#[test]
fn missing_tools_end_the_session() {
    let cause = || Event::Failed("cannot find binary path".to_string());
    assert_eq!(
        last(&args(), vec![Event::Begin, cause()]),
        "fail Required tool not found in PATH: xcodebuild: cannot find binary path"
    );
    assert_eq!(
        last(&args(), vec![Event::Begin, Event::Done, cause()]),
        "fail Required tool not found in PATH: xcode-build-server: cannot find binary path"
    );
}

#[test]
fn an_empty_scan_ends_the_session() {
    let events = vec![Event::Begin, Event::Done, Event::Done, Event::Done, Event::Walked(Vec::new())];
    assert_eq!(last(&args(), events), "fail No .xcworkspace or .xcodeproj found under src");
}

fn listing(end: Event) -> String {
    let mut a = args();
    a.project = Some(b"P".to_vec());
    last(&a, vec![Event::Begin, Event::Done, Event::Done, Event::Done, end])
}

#[test]
fn failed_listings_end_the_session() {
    assert_eq!(listing(ran(true, "no header\n", "")), "fail No schemes found for P");
    assert_eq!(listing(ran(false, LISTING, "broken")), "fail xcodebuild -list failed:\nbroken");
    assert_eq!(listing(Event::Failed("gone".to_string())), "fail Failed to run xcodebuild -list: gone");
}

fn config(ends: Vec<Event>) -> Vec<String> {
    let mut a = args();
    a.project = Some(b"P".to_vec());
    a.scheme = Some("S".to_string());
    let mut events = vec![Event::Begin, Event::Done, Event::Done, Event::Done];
    events.extend(ends);
    play(&a, events).1
}

#[test]
fn failed_configurations_end_the_session_after_they_are_shown() {
    let log = config(vec![ran(false, "", "bad "), press(KeyCode::Esc)]);
    assert_eq!(log[4], "look error|Config failed|bad|0|Up/Down scroll • Enter/q/Esc exit");
    assert_eq!(log[5], "fail xcode-build-server config failed");
    let log = config(vec![Event::Failed("gone".to_string())]);
    assert_eq!(log[4], "fail Failed to run xcode-build-server config: gone");
}

#[test]
fn leaving_a_picker_cancels_the_session() {
    let events = vec![Event::Begin, Event::Done, Event::Done, Event::Done, tree(), press(KeyCode::Char('q'))];
    assert_eq!(last(&args(), events), "fail Cancelled");
}

#[test]
fn a_broken_terminal_ends_the_session() {
    let broken = || Event::Failed("io".to_string());
    assert_eq!(last(&args(), vec![Event::Begin, Event::Done, Event::Done, broken()]), "fail io");
    let events = vec![Event::Begin, Event::Done, Event::Done, Event::Done, tree(), broken()];
    assert_eq!(last(&args(), events), "fail io");
    assert_eq!(config(vec![ran(true, "", ""), broken()])[5], "fail io");
}

#[test]
fn events_out_of_turn_are_not_expected() {
    assert!(!is_expected(&State::Start, &Event::Done));
    assert!(!is_expected(&State::Finding { tool: Tool::Xcodebuild }, &Event::Begin));
    assert!(!is_expected(&State::Scanning, &Event::Failed(String::new())));
    assert!(!is_expected(&State::Configuring, &Event::Done));
    assert!(!is_expected(&State::Ended, &Event::Begin));
    assert!(is_expected(&State::Configuring, &Event::Failed(String::new())));
}

#[test]
fn the_failure_of_a_session_is_kept() {
    let (_, action) = run_tui(&args(), State::ShowingScan, Event::Failed("x".to_string()));
    assert!(matches!(action, Action::End(Err(Failure::Terminal { cause })) if cause == "x"));
}

#[test]
fn an_outcome_stays_at_the_last_countable_line() {
    let mut a = args();
    a.project = Some(b"P.xcodeproj".to_vec());
    a.scheme = Some("App".to_string());
    let events = vec![Event::Begin, Event::Done, Event::Done, Event::Done, ran(true, "written", "")];
    let (mut state, _) = play(&a, events);
    for _ in 0..32770 {
        state = run_tui(&a, state, press(KeyCode::Down)).0;
    }
    match state.screen() {
        Some(Screen::Done { scroll, .. }) => assert_eq!(*scroll, 32767),
        _ => panic!("no outcome"),
    }
}
