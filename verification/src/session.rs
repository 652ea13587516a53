//! A session in the terminal: from the check for the tools to the last screen.
//!
//! [`run_tui`] takes one event and says what to do next. Doing it, and reporting back
//! with the event that came of it, is up to the caller.

use crate::args;
use crate::args::Args;
use crate::commands;
use crate::commands::Invocation;
use crate::commands::Output;
use crate::commands::Tool;
use crate::failures;
use crate::failures::Failure;
use crate::keys::Input;
use crate::pickers;
use crate::schemes;
use crate::screens;
use crate::screens::Screen;
use crate::targets;
use crate::targets::WalkItem;
use crate::targets::XcodeTarget;
use crate::text;
use vstd::prelude::*;
use vstd::string::*;

verus! {

/// For how many milliseconds one look at the terminal waits for a key.
pub const POLL_MILLIS: u64 = 50;

/// How far a session has come.
pub enum State {
    /// Nothing has been done.
    Start,
    /// A tool is being looked for.
    Finding { tool: Tool },
    /// The screen that goes with the scan is being shown.
    ShowingScan,
    /// The directory tree is being walked.
    Scanning,
    /// The user is picking a target.
    PickingTarget { screen: Screen },
    /// The screen that goes with the listing is being shown.
    ShowingList { target: XcodeTarget },
    /// The schemes of the target are being listed.
    Listing { target: XcodeTarget },
    /// The user is picking a scheme of the target.
    PickingScheme { target: XcodeTarget, screen: Screen },
    /// The screen that goes with the configuration is being shown.
    ShowingConfig { target: XcodeTarget, scheme: String },
    /// The configuration is being written.
    Configuring,
    /// The user is reading how it went.
    Finishing { screen: Screen, succeeded: bool },
    /// It is over.
    Ended,
}

/// A state as a value.
pub enum StateView {
    Start,
    Finding { tool: Tool },
    ShowingScan,
    Scanning,
    PickingTarget { screen: screens::ScreenView },
    ShowingList { target: targets::TargetView },
    Listing { target: targets::TargetView },
    PickingScheme { target: targets::TargetView, screen: screens::ScreenView },
    ShowingConfig { target: targets::TargetView, scheme: Seq<char> },
    Configuring,
    Finishing { screen: screens::ScreenView, succeeded: bool },
    Ended,
}

/// What happened.
pub enum Event {
    /// The session may begin.
    Begin,
    /// What was asked for is done.
    Done,
    /// What was asked for could not be done, for this reason.
    Failed(String),
    /// The walk is over and came to these.
    Walked(Vec<WalkItem>),
    /// The program ended.
    Ran(Output),
    /// A look at the terminal gave this.
    Looked(Input),
}

/// An event as a value.
pub enum EventView {
    Begin,
    Done,
    Failed(Seq<char>),
    Walked(Seq<WalkItem>),
    Ran(commands::OutputView),
    Looked(Input),
}

/// What to do next.
pub enum Action {
    /// Look for a tool in the search path.
    Find(Tool),
    /// Show a screen once.
    Show(Screen),
    /// Walk through the tree below a directory, through links too.
    Walk(Vec<u8>),
    /// Run a program to its end.
    Run(Invocation),
    /// Show the screen of the state and look for a key.
    Look,
    /// End the session.
    End(Result<(), Failure>),
}

/// An action as a value.
pub enum ActionView {
    Find(Tool),
    Show(screens::ScreenView),
    Walk(Seq<u8>),
    Run(commands::InvocationView),
    Look,
    End(Result<(), failures::FailureView>),
}

impl View for State {
    type V = StateView;

    open spec fn view(&self) -> StateView {
        match *self {
            State::Start => StateView::Start,
            State::Finding { tool } => StateView::Finding { tool },
            State::ShowingScan => StateView::ShowingScan,
            State::Scanning => StateView::Scanning,
            State::PickingTarget { screen } => StateView::PickingTarget { screen: screen@ },
            State::ShowingList { target } => StateView::ShowingList { target: target@ },
            State::Listing { target } => StateView::Listing { target: target@ },
            State::PickingScheme { target, screen } => StateView::PickingScheme {
                target: target@,
                screen: screen@,
            },
            State::ShowingConfig { target, scheme } => StateView::ShowingConfig {
                target: target@,
                scheme: scheme@,
            },
            State::Configuring => StateView::Configuring,
            State::Finishing { screen, succeeded } => StateView::Finishing {
                screen: screen@,
                succeeded,
            },
            State::Ended => StateView::Ended,
        }
    }
}

impl View for Event {
    type V = EventView;

    open spec fn view(&self) -> EventView {
        match *self {
            Event::Begin => EventView::Begin,
            Event::Done => EventView::Done,
            Event::Failed(cause) => EventView::Failed(cause@),
            Event::Walked(items) => EventView::Walked(items@),
            Event::Ran(output) => EventView::Ran(output@),
            Event::Looked(input) => EventView::Looked(input),
        }
    }
}

/// The value of how a session ended.
pub open spec fn ending(end: Result<(), Failure>) -> Result<(), failures::FailureView> {
    match end {
        Ok(()) => Ok(()),
        Err(failure) => Err(failure@),
    }
}

impl View for Action {
    type V = ActionView;

    open spec fn view(&self) -> ActionView {
        match *self {
            Action::Find(tool) => ActionView::Find(tool),
            Action::Show(screen) => ActionView::Show(screen@),
            Action::Walk(root) => ActionView::Walk(root@),
            Action::Run(call) => ActionView::Run(call@),
            Action::Look => ActionView::Look,
            Action::End(end) => ActionView::End(ending(end)),
        }
    }
}

/// The screen during the scan of `shown`.
pub open spec fn scan_screen(shown: Seq<char>) -> screens::ScreenView {
    screens::ScreenView::Running {
        title: "Scanning…"@,
        body: "Root: "@ + shown,
        hint: "Please wait"@,
    }
}

/// The screen while the schemes of a target, described as `target`, are listed.
pub open spec fn list_screen(target: Seq<char>) -> screens::ScreenView {
    screens::ScreenView::Running {
        title: "Listing schemes…"@,
        body: "Using "@ + target,
        hint: "Please wait"@,
    }
}

/// The screen while the configuration for a target, described as `target`, and a scheme
/// is written.
pub open spec fn config_screen(target: Seq<char>, scheme: Seq<char>) -> screens::ScreenView {
    screens::ScreenView::Running {
        title: "Generating buildServer.json…"@,
        body: "Target: "@ + target + "\nScheme: "@ + scheme
            + "\n\n(If this hangs, it’s xcodebuild being xcodebuild.)"@,
        hint: "Please wait"@,
    }
}

/// The screen on which a target is picked, with the first one selected.
pub open spec fn target_screen(items: Seq<targets::TargetView>) -> screens::ScreenView {
    screens::ScreenView::PickTarget {
        items,
        selected: 0,
        hint: "↑/↓ (or j/k) move • Enter select • q/Esc quit"@,
    }
}

/// The screen on which a scheme is picked, with the first one selected.
pub open spec fn scheme_screen(
    target: targets::TargetView,
    items: Seq<Seq<char>>,
) -> screens::ScreenView {
    screens::ScreenView::PickScheme {
        target,
        items,
        selected: 0,
        hint: "↑/↓ (or j/k) move • Enter select • q/Esc quit"@,
    }
}

/// The screen that tells how the configuration went.
pub open spec fn outcome_screen(success: bool, details: Seq<char>) -> screens::ScreenView {
    let hint = "Up/Down scroll • Enter/q/Esc exit"@;
    if success {
        screens::ScreenView::Done {
            summary: "Config generated successfully"@,
            details,
            scroll: 0,
            hint,
        }
    } else {
        screens::ScreenView::Error { summary: "Config failed"@, details, scroll: 0, hint }
    }
}

/// A session that ends in `failure`.
pub open spec fn failed(failure: failures::FailureView) -> (StateView, ActionView) {
    (StateView::Ended, ActionView::End(Err(failure)))
}

/// Target and scheme are settled: the configuration is next.
pub open spec fn with_scheme(target: targets::TargetView, scheme: Seq<char>) -> (
    StateView,
    ActionView,
) {
    (
        StateView::ShowingConfig { target, scheme },
        ActionView::Show(config_screen(screens::target_text(target), scheme)),
    )
}

/// The target is settled: its schemes are next, unless the scheme is given.
pub open spec fn with_target(args: args::ArgsView, target: targets::TargetView) -> (
    StateView,
    ActionView,
) {
    match args.scheme {
        Some(scheme) => with_scheme(target, scheme),
        None => (
            StateView::ShowingList { target },
            ActionView::Show(list_screen(screens::target_text(target))),
        ),
    }
}

/// The tools are there: a scan is next, unless the target is given.
pub open spec fn with_tools(args: args::ArgsView) -> (StateView, ActionView) {
    match targets::named_target(args) {
        Some(target) => with_target(args, target),
        None => (
            StateView::ShowingScan,
            ActionView::Show(scan_screen(text::text_of(args.dir))),
        ),
    }
}

/// The scan is over: one of its targets is next.
pub open spec fn with_found(args: args::ArgsView, found: Seq<targets::TargetView>) -> (
    StateView,
    ActionView,
) {
    if found.len() == 0 {
        failed(failures::FailureView::NoTargets { root: args.dir })
    } else if args.non_interactive {
        with_target(args, found[0])
    } else {
        (StateView::PickingTarget { screen: target_screen(found) }, ActionView::Look)
    }
}

/// The schemes are listed: one of them is next.
pub open spec fn with_listing(
    args: args::ArgsView,
    target: targets::TargetView,
    listing: Result<Seq<char>, failures::FailureView>,
) -> (StateView, ActionView) {
    match listing {
        Err(failure) => failed(failure),
        Ok(listing) => {
            let found = schemes::schemes_in(listing);
            if found.len() == 0 {
                failed(failures::FailureView::NoSchemes { path: target.path() })
            } else if args.non_interactive {
                with_scheme(target, found[0])
            } else {
                (
                    StateView::PickingScheme { target, screen: scheme_screen(target, found) },
                    ActionView::Look,
                )
            }
        },
    }
}

/// The configuration is over: the user is told how it went.
pub open spec fn with_outcome(success: bool, stdout: Seq<char>, stderr: Seq<char>) -> (
    StateView,
    ActionView,
) {
    (
        StateView::Finishing {
            screen: outcome_screen(success, commands::both(stdout, stderr)),
            succeeded: success,
        },
        ActionView::Look,
    )
}

/// The events that can come of what was asked for last.
pub open spec fn expects(state: StateView, event: EventView) -> bool {
    match state {
        StateView::Start => event is Begin,
        StateView::Finding { .. } => event is Done || event is Failed,
        StateView::ShowingScan => event is Done || event is Failed,
        StateView::Scanning => event is Walked,
        StateView::PickingTarget { .. } => event is Looked || event is Failed,
        StateView::ShowingList { .. } => event is Done || event is Failed,
        StateView::Listing { .. } => event is Ran || event is Failed,
        StateView::PickingScheme { .. } => event is Looked || event is Failed,
        StateView::ShowingConfig { .. } => event is Done || event is Failed,
        StateView::Configuring => event is Ran || event is Failed,
        StateView::Finishing { .. } => event is Looked || event is Failed,
        StateView::Ended => false,
    }
}

/// A state that a session can be in.
pub open spec fn is_sound(state: StateView) -> bool {
    match state {
        StateView::PickingTarget { screen } => pickers::picks_target(screen),
        StateView::PickingScheme { target, screen } => {
            &&& pickers::picks_scheme(screen)
            &&& screen->PickScheme_target == target
        },
        StateView::Finishing { screen, succeeded } => if succeeded {
            screen is Done
        } else {
            screen is Error
        },
        _ => true,
    }
}

/// What a failure means in a state.
pub open spec fn failure_in(state: StateView, cause: Seq<char>) -> failures::FailureView {
    match state {
        StateView::Finding { tool } => failures::FailureView::ToolMissing { tool, cause },
        StateView::Listing { .. } => failures::FailureView::ListNotRun { cause },
        StateView::Configuring => failures::FailureView::ConfigNotRun { cause },
        _ => failures::FailureView::Terminal { cause },
    }
}

/// The state after an event, and what to do next.
pub open spec fn next(args: args::ArgsView, state: StateView, event: EventView) -> (
    StateView,
    ActionView,
) {
    match event {
        EventView::Failed(cause) => failed(failure_in(state, cause)),
        EventView::Begin => (
            StateView::Finding { tool: Tool::Xcodebuild },
            ActionView::Find(Tool::Xcodebuild),
        ),
        EventView::Done => match state {
            StateView::Finding { tool } => match tool {
                Tool::Xcodebuild => (
                    StateView::Finding { tool: Tool::BuildServer },
                    ActionView::Find(Tool::BuildServer),
                ),
                Tool::BuildServer => with_tools(args),
            },
            StateView::ShowingScan => (StateView::Scanning, ActionView::Walk(args.dir)),
            StateView::ShowingList { target } => (
                StateView::Listing { target },
                ActionView::Run(commands::list_call(target)),
            ),
            StateView::ShowingConfig { target, scheme } => (
                StateView::Configuring,
                ActionView::Run(commands::config_call(target, scheme)),
            ),
            _ => (state, ActionView::Look),
        },
        EventView::Walked(items) => with_found(
            args,
            targets::found_targets(items, args.prefer_workspace),
        ),
        EventView::Ran(output) => match state {
            StateView::Listing { target } => with_listing(
                args,
                target,
                commands::listing_from(output),
            ),
            _ => with_outcome(
                output.success,
                text::text_of(output.stdout),
                text::text_of(output.stderr),
            ),
        },
        EventView::Looked(input) => match state {
            StateView::PickingTarget { screen } => match pickers::target_step(screen, input) {
                (screen, None) => (StateView::PickingTarget { screen }, ActionView::Look),
                (_, Some(Ok(target))) => with_target(args, target),
                (_, Some(Err(failure))) => failed(failure),
            },
            StateView::PickingScheme { target, screen } => match pickers::scheme_step(
                screen,
                input,
            ) {
                (screen, None) => (StateView::PickingScheme { target, screen }, ActionView::Look),
                (_, Some(Ok(scheme))) => with_scheme(target, scheme),
                (_, Some(Err(failure))) => failed(failure),
            },
            StateView::Finishing { screen, succeeded } => match pickers::finish_step(
                screen,
                input,
            ) {
                (screen, false) => (
                    StateView::Finishing { screen, succeeded },
                    ActionView::Look,
                ),
                (_, true) => if succeeded {
                    (StateView::Ended, ActionView::End(Ok(())))
                } else {
                    failed(failures::FailureView::ConfigFailed)
                },
            },
            _ => (state, ActionView::Look),
        },
    }
}


/// The screen of a state that waits for keys.
pub open spec fn screen_of(state: StateView) -> Option<screens::ScreenView> {
    match state {
        StateView::PickingTarget { screen } => Some(screen),
        StateView::PickingScheme { screen, .. } => Some(screen),
        StateView::Finishing { screen, .. } => Some(screen),
        _ => None,
    }
}

impl State {
    /// The screen of a state that waits for keys.
    pub fn screen(&self) -> (screen: Option<&Screen>)
        ensures
            match screen {
                Some(screen) => screen_of(self@) == Some(screen@),
                None => screen_of(self@) is None,
            },
    {
        match self {
            State::PickingTarget { screen } => Some(screen),
            State::PickingScheme { screen, .. } => Some(screen),
            State::Finishing { screen, .. } => Some(screen),
            _ => None,
        }
    }
}

/// Whether `event` can come of what was asked for last.
pub fn is_expected(state: &State, event: &Event) -> (expected: bool)
    ensures
        expected == expects(state@, event@),
{
    let done: bool = matches!(event, Event::Done) || matches!(event, Event::Failed(_));
    let ran: bool = matches!(event, Event::Ran(_)) || matches!(event, Event::Failed(_));
    let looked: bool = matches!(event, Event::Looked(_)) || matches!(event, Event::Failed(_));
    match state {
        State::Start => matches!(event, Event::Begin),
        State::Finding { .. } => done,
        State::ShowingScan => done,
        State::Scanning => matches!(event, Event::Walked(_)),
        State::PickingTarget { .. } => looked,
        State::ShowingList { .. } => done,
        State::Listing { .. } => ran,
        State::PickingScheme { .. } => looked,
        State::ShowingConfig { .. } => done,
        State::Configuring => ran,
        State::Finishing { .. } => looked,
        State::Ended => false,
    }
}

/// The values of a step.
pub open spec fn step_view(step: (State, Action)) -> (StateView, ActionView) {
    (step.0@, step.1@)
}

/// The screen during the scan of `shown`.
pub fn scanning(shown: &str) -> (screen: Screen)
    ensures
        screen@ == scan_screen(shown@),
{
    Screen::Running {
        title: "Scanning…".to_owned(),
        body: text::join("Root: ", shown),
        hint: "Please wait".to_owned(),
    }
}

/// The screen while schemes are listed.
pub fn listing(target: &str) -> (screen: Screen)
    ensures
        screen@ == list_screen(target@),
{
    Screen::Running {
        title: "Listing schemes…".to_owned(),
        body: text::join("Using ", target),
        hint: "Please wait".to_owned(),
    }
}

/// The screen while a configuration is written.
pub fn configuring(target: &str, scheme: &str) -> (screen: Screen)
    ensures
        screen@ == config_screen(target@, scheme@),
{
    let mut body: String = "Target: ".to_owned();
    body.append(target);
    body.append("\nScheme: ");
    body.append(scheme);
    body.append("\n\n(If this hangs, it’s xcodebuild being xcodebuild.)");
    Screen::Running {
        title: "Generating buildServer.json…".to_owned(),
        body,
        hint: "Please wait".to_owned(),
    }
}

/// A session that ends in `failure`.
fn fail(failure: Failure) -> (step: (State, Action))
    ensures
        step_view(step) == failed(failure@),
{
    (State::Ended, Action::End(Err(failure)))
}

/// Target and scheme are settled: the screen for the configuration is shown, and the
/// configuration comes next.
pub fn run_config_screen(target: XcodeTarget, scheme: String) -> (step: (State, Action))
    ensures
        step_view(step) == with_scheme(target@, scheme@),
{
    let description: String = screens::describe(&target);
    let screen: Screen = configuring(description.as_str(), scheme.as_str());
    (State::ShowingConfig { target, scheme }, Action::Show(screen))
}

/// The target is settled: its schemes come next, unless the scheme is given.
pub fn settle_target(args: &Args, target: XcodeTarget) -> (step: (State, Action))
    ensures
        step_view(step) == with_target(args@, target@),
{
    match &args.scheme {
        Some(scheme) => run_config_screen(target, scheme.clone()),
        None => {
            let description: String = screens::describe(&target);
            let screen: Screen = listing(description.as_str());
            (State::ShowingList { target }, Action::Show(screen))
        },
    }
}

/// The tools are there: a scan comes next, unless the target is given.
pub fn settle_tools(args: &Args) -> (step: (State, Action))
    ensures
        step_view(step) == with_tools(args@),
{
    match targets::explicit_target(args) {
        Some(target) => settle_target(args, target),
        None => {
            let shown: String = text::read_text(&args.dir);
            (State::ShowingScan, Action::Show(scanning(shown.as_str())))
        },
    }
}

/// The scan is over: one of its targets comes next.
pub fn settle_scan(args: &Args, found: Vec<XcodeTarget>) -> (step: (State, Action))
    ensures
        step_view(step) == with_found(args@, targets::target_views(found@)),
{
    if found.len() == 0 {
        return fail(Failure::NoTargets { root: args.dir.clone() });
    }
    if args.non_interactive {
        return settle_target(args, found[0].clone());
    }
    let screen: Screen = Screen::PickTarget {
        items: found,
        selected: 0,
        hint: "↑/↓ (or j/k) move • Enter select • q/Esc quit".to_owned(),
    };
    (State::PickingTarget { screen }, Action::Look)
}

/// The value of a listing that may have failed.
pub open spec fn listing_view(listing: Result<String, Failure>) -> Result<
    Seq<char>,
    failures::FailureView,
> {
    match listing {
        Ok(listing) => Ok(listing@),
        Err(failure) => Err(failure@),
    }
}

/// The schemes are listed: one of them comes next.
pub fn settle_listing(
    args: &Args,
    target: XcodeTarget,
    listing: Result<String, Failure>,
) -> (step: (State, Action))
    ensures
        step_view(step) == with_listing(args@, target@, listing_view(listing)),
{
    match listing {
        Err(failure) => fail(failure),
        Ok(listing) => {
            let found: Vec<String> = schemes::parse_schemes(listing.as_str());
            assert(found@.len() == schemes::schemes_in(listing@).len());
            if found.len() == 0 {
                return fail(Failure::NoSchemes { path: target.path().clone() });
            }
            if args.non_interactive {
                assert(schemes::texts(found@)[0] == found@[0]@);
                return run_config_screen(target, found[0].clone());
            }
            let screen: Screen = Screen::PickScheme {
                target: target.clone(),
                items: found,
                selected: 0,
                hint: "↑/↓ (or j/k) move • Enter select • q/Esc quit".to_owned(),
            };
            (State::PickingScheme { target, screen }, Action::Look)
        },
    }
}

/// The configuration is over: the user is told how it went.
pub fn settle_config(success: bool, stdout: &str, stderr: &str) -> (step: (State, Action))
    ensures
        step_view(step) == with_outcome(success, stdout@, stderr@),
{
    let details: String = commands::join_outputs(stdout, stderr);
    let hint: String = "Up/Down scroll • Enter/q/Esc exit".to_owned();
    let screen: Screen = if success {
        Screen::Done {
            summary: "Config generated successfully".to_owned(),
            details,
            scroll: 0,
            hint,
        }
    } else {
        Screen::Error { summary: "Config failed".to_owned(), details, scroll: 0, hint }
    };
    (State::Finishing { screen, succeeded: success }, Action::Look)
}

/// What a failure means in a state.
fn explain(state: &State, cause: String) -> (failure: Failure)
    ensures
        failure@ == failure_in(state@, cause@),
{
    match state {
        State::Finding { tool } => Failure::ToolMissing { tool: *tool, cause },
        State::Listing { .. } => Failure::ListNotRun { cause },
        State::Configuring => Failure::ConfigNotRun { cause },
        _ => Failure::Terminal { cause },
    }
}

/// What was asked for is done: the next step from `state`.
fn go_on(args: &Args, state: State) -> (step: (State, Action))
    requires
        expects(state@, EventView::Done),
    ensures
        step_view(step) == next(args@, state@, EventView::Done),
{
    match state {
        State::Finding { tool } => match tool {
            Tool::Xcodebuild => (
                State::Finding { tool: Tool::BuildServer },
                Action::Find(Tool::BuildServer),
            ),
            Tool::BuildServer => settle_tools(args),
        },
        State::ShowingScan => (State::Scanning, Action::Walk(args.dir.clone())),
        State::ShowingList { target } => {
            let call: Invocation = commands::list_invocation(&target);
            (State::Listing { target }, Action::Run(call))
        },
        State::ShowingConfig { target, scheme } => {
            let call: Invocation = commands::config_invocation(&target, scheme.as_str());
            (State::Configuring, Action::Run(call))
        },
        other => (other, Action::Look),
    }
}

/// A look at the terminal gave `input`: the next step from `state`.
fn look(args: &Args, state: State, input: Input) -> (step: (State, Action))
    requires
        is_sound(state@),
        expects(state@, EventView::Looked(input)),
    ensures
        step_view(step) == next(args@, state@, EventView::Looked(input)),
{
    match state {
        State::PickingTarget { screen } => {
            let mut screen: Screen = screen;
            match pickers::pick_target_screen(&mut screen, input) {
                None => (State::PickingTarget { screen }, Action::Look),
                Some(Ok(target)) => settle_target(args, target),
                Some(Err(failure)) => fail(failure),
            }
        },
        State::PickingScheme { target, screen } => {
            let mut screen: Screen = screen;
            match pickers::pick_scheme_screen(&mut screen, input) {
                None => (State::PickingScheme { target, screen }, Action::Look),
                Some(Ok(scheme)) => run_config_screen(target, scheme),
                Some(Err(failure)) => fail(failure),
            }
        },
        State::Finishing { screen, succeeded } => {
            let mut screen: Screen = screen;
            let done: bool = pickers::finish_screen(&mut screen, input);
            if !done {
                (State::Finishing { screen, succeeded }, Action::Look)
            } else if succeeded {
                (State::Ended, Action::End(Ok(())))
            } else {
                fail(Failure::ConfigFailed)
            }
        },
        other => (other, Action::Look),
    }
}

/// One step of a session: what to do after `event`, and how far the session has come.
pub fn run_tui(args: &Args, state: State, event: Event) -> (step: (State, Action))
    requires
        is_sound(state@),
        expects(state@, event@),
    ensures
        step_view(step) == next(args@, state@, event@),
        is_sound(step.0@),
{
    proof {
        lemma_next_is_sound(args@, state@, event@);
    }
    match event {
        Event::Failed(cause) => fail(explain(&state, cause)),
        Event::Begin => (
            State::Finding { tool: Tool::Xcodebuild },
            Action::Find(Tool::Xcodebuild),
        ),
        Event::Done => go_on(args, state),
        Event::Walked(items) => settle_scan(
            args,
            targets::scan_targets_ordered(&items, args.prefer_workspace),
        ),
        Event::Ran(output) => match state {
            State::Listing { target } => settle_listing(
                args,
                target,
                commands::run_xcodebuild_list(&output),
            ),
            _ => {
                let stdout: String = text::read_text(&output.stdout);
                let stderr: String = text::read_text(&output.stderr);
                settle_config(output.success, stdout.as_str(), stderr.as_str())
            },
        },
        Event::Looked(input) => look(args, state, input),
    }
}

proof fn lemma_next_is_sound(args: args::ArgsView, state: StateView, event: EventView)
    requires
        is_sound(state),
        expects(state, event),
    ensures
        is_sound(next(args, state, event).0),
{
}

/// One look at the terminal lasts a twentieth of a second.
pub proof fn law_looks_are_short()
    ensures
        20 * POLL_MILLIS == 1000,
{
}

} // verus!
