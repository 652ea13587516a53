//! What one step of a session leads to, told in the values that its caller holds.

use crate::args::Args;
use crate::commands;
use crate::commands::Output;
use crate::commands::Tool;
use crate::failures::Failure;
use crate::keys;
use crate::keys::Input;
use crate::pickers;
use crate::schemes;
use crate::screens;
use crate::screens::Screen;
use crate::session;
use crate::session::Action;
use crate::session::Event;
use crate::session::State;
use crate::targets;
use crate::targets::WalkItem;
use crate::targets::XcodeTarget;
use crate::text;
use vstd::prelude::*;

verus! {

/// A screen that tells of work under way.
pub open spec fn tells(screen: Screen, title: Seq<char>, body: Seq<char>) -> bool {
    screen matches Screen::Running { title: t, body: b, hint } && {
        &&& t@ == title
        &&& b@ == body
        &&& hint@ == "Please wait"@
    }
}

/// The step goes on to list the schemes of `target`.
pub open spec fn goes_on_to_list(step: (State, Action), target: XcodeTarget) -> bool {
    &&& step.0 matches State::ShowingList { target: t } && targets::same_target(t, target)
    &&& step.1 matches Action::Show(screen) && tells(
        screen,
        "Listing schemes…"@,
        "Using "@ + screens::called(target),
    )
}

/// The step goes on to configure `target` and `scheme`.
pub open spec fn goes_on_to_configure(
    step: (State, Action),
    target: XcodeTarget,
    scheme: Seq<char>,
) -> bool {
    &&& step.0 matches State::ShowingConfig { target: t, scheme: s } && targets::same_target(
        t,
        target,
    ) && s@ == scheme
    &&& step.1 matches Action::Show(screen) && tells(
        screen,
        "Generating buildServer.json…"@,
        "Target: "@ + screens::called(target) + "\nScheme: "@ + scheme
            + "\n\n(If this hangs, it’s xcodebuild being xcodebuild.)"@,
    )
}

/// The step goes on with `target`: to the configuration if the command line gives the
/// scheme, and to the listing of schemes if it does not.
pub open spec fn goes_on_with(args: &Args, step: (State, Action), target: XcodeTarget) -> bool {
    match args.scheme {
        Some(scheme) => goes_on_to_configure(step, target, scheme@),
        None => goes_on_to_list(step, target),
    }
}

/// The keys that the pickers tell of.
pub open spec fn picker_keys() -> Seq<char> {
    "↑/↓ (or j/k) move • Enter select • q/Esc quit"@
}

/// A session begins with a look for `xcodebuild`, then for `xcode-build-server`.
pub proof fn law_tools_are_looked_for(
    args: &Args,
    begin: (State, Action),
    found: (State, Action),
)
    requires
        call_ensures(session::run_tui, (args, State::Start, Event::Begin), begin),
        call_ensures(
            session::run_tui,
            (args, State::Finding { tool: Tool::Xcodebuild }, Event::Done),
            found,
        ),
    ensures
        begin.0 matches State::Finding { tool: Tool::Xcodebuild },
        begin.1 matches Action::Find(Tool::Xcodebuild),
        found.0 matches State::Finding { tool: Tool::BuildServer },
        found.1 matches Action::Find(Tool::BuildServer),
{
}

/// Once both tools are found, a workspace on the command line is used, whatever else is on
/// it; without one, a project is; and without either the directory is scanned.
pub proof fn law_named_target_goes_first(args: &Args, step: (State, Action))
    requires
        call_ensures(
            session::run_tui,
            (args, State::Finding { tool: Tool::BuildServer }, Event::Done),
            step,
        ),
    ensures
        match (args.workspace, args.project) {
            (Some(named), _) => goes_on_with(args, step, XcodeTarget::Workspace(named)),
            (None, Some(named)) => goes_on_with(args, step, XcodeTarget::Project(named)),
            (None, None) => {
                &&& step.0 is ShowingScan
                &&& step.1 matches Action::Show(screen) && tells(
                    screen,
                    "Scanning…"@,
                    "Root: "@ + text::text_of(args.dir@),
                )
            },
        },
{
}

/// The directory that is walked is the one on the command line.
pub proof fn law_walk_starts_at_directory(args: &Args, step: (State, Action))
    requires
        call_ensures(session::run_tui, (args, State::ShowingScan, Event::Done), step),
    ensures
        step.0 is Scanning,
        step.1 matches Action::Walk(root) && root@ == args.dir@,
{
}

/// After the walk, what a scan of it gives is offered: with the first target selected, or,
/// without interaction, the first target is used. If there is none, the session fails and
/// names the directory.
pub proof fn law_found_targets_are_offered(
    args: &Args,
    items: Vec<WalkItem>,
    found: Vec<XcodeTarget>,
    step: (State, Action),
)
    requires
        call_ensures(
            targets::scan_targets_ordered,
            (&items, args.prefer_workspace),
            found,
        ),
        call_ensures(session::run_tui, (args, State::Scanning, Event::Walked(items)), step),
    ensures
        found@.len() == 0 ==> {
            &&& step.0 is Ended
            &&& step.1 matches Action::End(Err(Failure::NoTargets { root })) && root@ == args.dir@
        },
        found@.len() > 0 && args.non_interactive ==> goes_on_with(args, step, found@[0]),
        found@.len() > 0 && !args.non_interactive ==> {
            &&& step.1 is Look
            &&& step.0 matches State::PickingTarget {
                screen: Screen::PickTarget { items: offered, selected, hint },
            } && {
                &&& targets::same_targets(offered@, found@)
                &&& selected == 0
                &&& hint@ == picker_keys()
            }
        },
{
    let views = targets::target_views(found@);
    assert(views.len() == found@.len());
    if found@.len() > 0 {
        assert(views[0] == found@[0]@);
        if !args.non_interactive {
            lemma_same_targets(step.0->PickingTarget_screen->PickTarget_items@, found@);
        }
    }
}

proof fn lemma_same_targets(a: Seq<XcodeTarget>, b: Seq<XcodeTarget>)
    requires
        targets::target_views(a) == targets::target_views(b),
    ensures
        targets::same_targets(a, b),
{
    assert(targets::target_views(a).len() == a.len());
    assert(targets::target_views(b).len() == b.len());
    assert forall|i: int| 0 <= i < a.len() implies targets::same_target(#[trigger] a[i], b[i]) by {
        assert(targets::target_views(a)[i] == a[i]@);
        assert(targets::target_views(b)[i] == b[i]@);
    }
}

proof fn lemma_same_texts(a: Seq<String>, b: Seq<String>)
    requires
        schemes::texts(a) == schemes::texts(b),
    ensures
        schemes::same_texts(a, b),
{
    assert(schemes::texts(a).len() == a.len());
    assert(schemes::texts(b).len() == b.len());
    assert forall|i: int| 0 <= i < a.len() implies (#[trigger] a[i])@ == b[i]@ by {
        assert(schemes::texts(a)[i] == a[i]@);
        assert(schemes::texts(b)[i] == b[i]@);
    }
}

/// While a target is picked, enter goes on with the one that is selected, a key that leaves
/// cancels the session whatever is selected, and anything else moves the selection as asked
/// for and looks again.
pub proof fn law_taken_target_is_used(
    args: &Args,
    items: Vec<XcodeTarget>,
    selected: usize,
    hint: String,
    input: Input,
    step: (State, Action),
)
    requires
        selected < items@.len(),
        call_ensures(
            session::run_tui,
            (
                args,
                State::PickingTarget { screen: Screen::PickTarget { items, selected, hint } },
                Event::Looked(input),
            ),
            step,
        ),
    ensures
        keys::takes(input) ==> goes_on_with(args, step, items@[selected as int]),
        keys::quits(input) ==> {
            &&& step.0 is Ended
            &&& step.1 matches Action::End(Err(Failure::Cancelled))
        },
        !keys::takes(input) && !keys::quits(input) ==> {
            &&& step.1 is Look
            &&& step.0 matches State::PickingTarget {
                screen: Screen::PickTarget { items: left, selected: at, hint: told },
            } && {
                &&& targets::same_targets(left@, items@)
                &&& at == pickers::moved(selected as int, items@.len() as int, input)
                &&& told@ == hint@
            }
        },
{
    assert(targets::target_views(items@)[selected as int] == items@[selected as int]@);
    if !keys::takes(input) && !keys::quits(input) {
        lemma_same_targets(step.0->PickingTarget_screen->PickTarget_items@, items@);
    }
}

/// The schemes that are listed are those of the target that was settled on.
pub proof fn law_settled_target_is_listed(args: &Args, target: XcodeTarget, step: (State, Action))
    requires
        call_ensures(session::run_tui, (args, State::ShowingList { target }, Event::Done), step),
    ensures
        step.0 matches State::Listing { target: t } && targets::same_target(t, target),
        step.1 matches Action::Run(call) && commands::lists(call, target),
{
    commands::lemma_lists(step.1->Run_0, target);
}

/// After a listing that went well, the schemes that its standard output names are offered:
/// with the first one selected, or, without interaction, the first one is used. If there is
/// none, the session fails and names the target. A listing that did not go well ends the
/// session with the text of its standard error.
pub proof fn law_listed_schemes_are_offered(
    args: &Args,
    target: XcodeTarget,
    output: Output,
    listing: &str,
    names: Vec<String>,
    step: (State, Action),
)
    requires
        listing@ == text::text_of(output.stdout@),
        call_ensures(schemes::parse_schemes, (listing,), names),
        call_ensures(
            session::run_tui,
            (args, State::Listing { target }, Event::Ran(output)),
            step,
        ),
    ensures
        !output.success ==> {
            &&& step.0 is Ended
            &&& step.1 matches Action::End(Err(Failure::ListFailed { stderr })) && stderr@
                == text::text_of(output.stderr@)
        },
        output.success && names@.len() == 0 ==> {
            &&& step.0 is Ended
            &&& step.1 matches Action::End(Err(Failure::NoSchemes { path })) && path@
                == targets::place(target)
        },
        output.success && names@.len() > 0 && args.non_interactive ==> goes_on_to_configure(
            step,
            target,
            names@[0]@,
        ),
        output.success && names@.len() > 0 && !args.non_interactive ==> {
            &&& step.1 is Look
            &&& step.0 matches State::PickingScheme {
                target: t,
                screen: Screen::PickScheme { target: of, items: offered, selected, hint },
            } && {
                &&& targets::same_target(t, target)
                &&& targets::same_target(of, target)
                &&& schemes::same_texts(offered@, names@)
                &&& selected == 0
                &&& hint@ == picker_keys()
            }
        },
{
    let texts = schemes::texts(names@);
    assert(texts.len() == names@.len());
    if output.success && names@.len() > 0 {
        assert(texts[0] == names@[0]@);
        if !args.non_interactive {
            lemma_same_texts(step.0->PickingScheme_screen->PickScheme_items@, names@);
        }
    }
}

/// While a scheme is picked, enter goes on to configure the one that is selected, a key that
/// leaves cancels the session whatever is selected, and anything else moves the selection as
/// asked for and looks again.
pub proof fn law_taken_scheme_is_used(
    args: &Args,
    target: XcodeTarget,
    items: Vec<String>,
    selected: usize,
    hint: String,
    input: Input,
    step: (State, Action),
)
    requires
        selected < items@.len(),
        call_ensures(
            session::run_tui,
            (
                args,
                State::PickingScheme {
                    target,
                    screen: Screen::PickScheme { target, items, selected, hint },
                },
                Event::Looked(input),
            ),
            step,
        ),
    ensures
        keys::takes(input) ==> goes_on_to_configure(step, target, items@[selected as int]@),
        keys::quits(input) ==> {
            &&& step.0 is Ended
            &&& step.1 matches Action::End(Err(Failure::Cancelled))
        },
        !keys::takes(input) && !keys::quits(input) ==> {
            &&& step.1 is Look
            &&& step.0 matches State::PickingScheme {
                target: t,
                screen: Screen::PickScheme { target: of, items: left, selected: at, hint: told },
            } && {
                &&& targets::same_target(t, target)
                &&& targets::same_target(of, target)
                &&& schemes::same_texts(left@, items@)
                &&& at == pickers::moved(selected as int, items@.len() as int, input)
                &&& told@ == hint@
            }
        },
{
    assert(schemes::texts(items@)[selected as int] == items@[selected as int]@);
    if !keys::takes(input) && !keys::quits(input) {
        lemma_same_texts(step.0->PickingScheme_screen->PickScheme_items@, items@);
    }
}

/// The configuration is asked for the target and the scheme that were settled on.
pub proof fn law_settled_pair_is_configured(
    args: &Args,
    target: XcodeTarget,
    scheme: String,
    step: (State, Action),
)
    requires
        call_ensures(
            session::run_tui,
            (args, State::ShowingConfig { target, scheme }, Event::Done),
            step,
        ),
    ensures
        step.0 is Configuring,
        step.1 matches Action::Run(call) && commands::configures(call, target, scheme@),
{
    commands::lemma_configures(step.1->Run_0, target, scheme@);
}

/// The scheme that is selected when enter is pressed is the one that stands behind `-scheme`
/// in the call that follows, and the target is the one whose schemes were offered.
pub proof fn law_selected_scheme_is_configured(
    args: &Args,
    target: XcodeTarget,
    items: Vec<String>,
    selected: usize,
    hint: String,
    input: Input,
    taken: (State, Action),
    run: (State, Action),
)
    requires
        selected < items@.len(),
        keys::takes(input),
        call_ensures(
            session::run_tui,
            (
                args,
                State::PickingScheme {
                    target,
                    screen: Screen::PickScheme { target, items, selected, hint },
                },
                Event::Looked(input),
            ),
            taken,
        ),
        call_ensures(session::run_tui, (args, taken.0, Event::Done), run),
    ensures
        run.1 matches Action::Run(call) && commands::configures(
            call,
            target,
            items@[selected as int]@,
        ),
{
    law_taken_scheme_is_used(args, target, items, selected, hint, input, taken);
    if let State::ShowingConfig { target: t, scheme } = taken.0 {
        law_settled_pair_is_configured(args, t, scheme, run);
    }
}

/// The target that is selected when enter is pressed is the one that the call which follows
/// is about: it lists the schemes of that target, or configures it if the command line gives
/// the scheme.
pub proof fn law_selected_target_is_called_for(
    args: &Args,
    items: Vec<XcodeTarget>,
    selected: usize,
    hint: String,
    input: Input,
    taken: (State, Action),
    run: (State, Action),
)
    requires
        selected < items@.len(),
        keys::takes(input),
        call_ensures(
            session::run_tui,
            (
                args,
                State::PickingTarget { screen: Screen::PickTarget { items, selected, hint } },
                Event::Looked(input),
            ),
            taken,
        ),
        call_ensures(session::run_tui, (args, taken.0, Event::Done), run),
    ensures
        run.1 matches Action::Run(call) && match args.scheme {
            Some(scheme) => commands::configures(call, items@[selected as int], scheme@),
            None => commands::lists(call, items@[selected as int]),
        },
{
    law_taken_target_is_used(args, items, selected, hint, input, taken);
    match taken.0 {
        State::ShowingConfig { target: t, scheme } => {
            law_settled_pair_is_configured(args, t, scheme, run);
        },
        State::ShowingList { target: t } => {
            law_settled_target_is_listed(args, t, run);
        },
        _ => {},
    }
}

/// A target on the command line is the one that the first call is about, whatever else is on
/// the command line: it lists the schemes of that target, or configures it if the command
/// line gives the scheme.
pub proof fn law_named_target_is_called_for(
    args: &Args,
    found: (State, Action),
    run: (State, Action),
)
    requires
        args.workspace is Some || args.project is Some,
        call_ensures(
            session::run_tui,
            (args, State::Finding { tool: Tool::BuildServer }, Event::Done),
            found,
        ),
        call_ensures(session::run_tui, (args, found.0, Event::Done), run),
    ensures
        ({
            let named = match args.workspace {
                Some(path) => XcodeTarget::Workspace(path),
                None => XcodeTarget::Project(args.project->0),
            };
            run.1 matches Action::Run(call) && match args.scheme {
                Some(scheme) => commands::configures(call, named, scheme@),
                None => commands::lists(call, named),
            }
        }),
{
    law_named_target_goes_first(args, found);
    match found.0 {
        State::ShowingConfig { target: t, scheme } => {
            law_settled_pair_is_configured(args, t, scheme, run);
        },
        State::ShowingList { target: t } => {
            law_settled_target_is_listed(args, t, run);
        },
        _ => {},
    }
}

/// After the configuration the user is told how it went, with both outputs, from the top;
/// the session remembers whether it went well.
pub proof fn law_outcome_is_shown(
    args: &Args,
    output: Output,
    stdout: &str,
    stderr: &str,
    joined: String,
    step: (State, Action),
)
    requires
        stdout@ == text::text_of(output.stdout@),
        stderr@ == text::text_of(output.stderr@),
        call_ensures(commands::join_outputs, (stdout, stderr), joined),
        call_ensures(session::run_tui, (args, State::Configuring, Event::Ran(output)), step),
    ensures
        step.1 is Look,
        step.0 matches State::Finishing { screen, succeeded } && {
            &&& succeeded == output.success
            &&& output.success ==> (screen matches Screen::Done { summary, details, scroll, hint }
                && {
                &&& summary@ == "Config generated successfully"@
                &&& details@ == joined@
                &&& scroll == 0
                &&& hint@ == "Up/Down scroll • Enter/q/Esc exit"@
            })
            &&& !output.success ==> (screen matches Screen::Error { summary, details, scroll, hint }
                && {
                &&& summary@ == "Config failed"@
                &&& details@ == joined@
                &&& scroll == 0
                &&& hint@ == "Up/Down scroll • Enter/q/Esc exit"@
            })
        },
{
}

/// The outcome stays on the screen, and rolls, until enter or a key that leaves is pressed.
/// Then the session ends: well if the configuration went well, and otherwise with a failure.
pub proof fn law_outcome_stays_until_read(
    args: &Args,
    screen: Screen,
    succeeded: bool,
    input: Input,
    step: (State, Action),
)
    requires
        screen is Done || screen is Error,
        call_ensures(
            session::run_tui,
            (args, State::Finishing { screen, succeeded }, Event::Looked(input)),
            step,
        ),
    ensures
        keys::takes(input) || keys::quits(input) ==> {
            &&& step.0 is Ended
            &&& succeeded ==> (step.1 matches Action::End(Ok(())))
            &&& !succeeded ==> (step.1 matches Action::End(Err(Failure::ConfigFailed)))
        },
        !keys::takes(input) && !keys::quits(input) ==> {
            &&& step.1 is Look
            &&& step.0 matches State::Finishing { screen: after, succeeded: still } && {
                &&& still == succeeded
                &&& match screen {
                    Screen::Done { summary, details, scroll, hint } => {
                        after matches Screen::Done { summary: s, details: d, scroll: at, hint: h }
                            && {
                            &&& s@ == summary@ && d@ == details@ && h@ == hint@
                            &&& scroll <= 32767 ==> at == pickers::rolled(scroll as int, input)
                        }
                    },
                    Screen::Error { summary, details, scroll, hint } => {
                        after matches Screen::Error { summary: s, details: d, scroll: at, hint: h }
                            && {
                            &&& s@ == summary@ && d@ == details@ && h@ == hint@
                            &&& scroll <= 32767 ==> at == pickers::rolled(scroll as int, input)
                        }
                    },
                    _ => false,
                }
            }
        },
{
}

/// What cannot be done ends the session at once, with its cause: a tool that is missing by
/// its name, a program that could not be started by what it was to do, and anything else as
/// a failure of the terminal.
pub proof fn law_what_fails_ends_session(
    args: &Args,
    state: State,
    cause: String,
    step: (State, Action),
)
    requires
        call_ensures(session::run_tui, (args, state, Event::Failed(cause)), step),
    ensures
        step.0 is Ended,
        step.1 matches Action::End(Err(failure)) && match state {
            State::Finding { tool } => failure matches Failure::ToolMissing { tool: t, cause: c }
                && t == tool && c@ == cause@,
            State::Listing { .. } => failure matches Failure::ListNotRun { cause: c } && c@
                == cause@,
            State::Configuring => failure matches Failure::ConfigNotRun { cause: c } && c@
                == cause@,
            _ => failure matches Failure::Terminal { cause: c } && c@ == cause@,
        },
{
}

/// Which events can come of what was asked for: what was to be shown or found is done or
/// fails, a walk ends, a program has run or fails to, a look gives something or fails, and
/// after the end nothing comes.
pub proof fn law_what_can_come(state: &State, event: &Event, expected: bool)
    requires
        call_ensures(session::is_expected, (state, event), expected),
    ensures
        expected <==> match *event {
            Event::Begin => *state is Start,
            Event::Done => *state is Finding || *state is ShowingScan || *state is ShowingList
                || *state is ShowingConfig,
            Event::Failed(_) => !(*state is Start) && !(*state is Scanning) && !(*state is Ended),
            Event::Walked(_) => *state is Scanning,
            Event::Ran(_) => *state is Listing || *state is Configuring,
            Event::Looked(_) => *state is PickingTarget || *state is PickingScheme
                || *state is Finishing,
        },
{
}

/// A state that waits for keys hands out the screen that it was made with, as it is.
pub proof fn law_state_hands_out_its_screen(state: &State, screen: Option<&Screen>)
    requires
        call_ensures(State::screen, (state,), screen),
    ensures
        match *state {
            State::PickingTarget { screen: own } => screen matches Some(s) && s@ == own@,
            State::PickingScheme { screen: own, .. } => screen matches Some(s) && s@ == own@,
            State::Finishing { screen: own, .. } => screen matches Some(s) && s@ == own@,
            _ => screen is None,
        },
{
}

} // verus!
