//! The program round a session: the terminal is entered, the session runs, the terminal
//! is given back whatever came of it, and the process exits.

use crate::args;
use crate::args::Args;
use crate::failures;
use crate::failures::Failure;
use crate::history;
use crate::session;
use crate::session::Action;
use crate::session::Event;
use crate::session::State;
use vstd::prelude::*;

verus! {

/// How far the program has come.
pub enum Program {
    /// Nothing has been done.
    Start,
    /// The terminal is being entered.
    Entering,
    /// The session is under way.
    Running(State),
    /// The session is over and the terminal is being given back.
    Leaving(Result<(), Failure>),
    /// The process is about to exit.
    Gone,
}

/// A program as a value.
pub enum ProgramView {
    Start,
    Entering,
    Running(session::StateView),
    Leaving(Result<(), failures::FailureView>),
    Gone,
}

impl View for Program {
    type V = ProgramView;

    open spec fn view(&self) -> ProgramView {
        match *self {
            Program::Start => ProgramView::Start,
            Program::Entering => ProgramView::Entering,
            Program::Running(state) => ProgramView::Running(state@),
            Program::Leaving(end) => ProgramView::Leaving(session::ending(end)),
            Program::Gone => ProgramView::Gone,
        }
    }
}

/// What to do next.
pub enum Task {
    /// Take the terminal over.
    Enter,
    /// Do what the session asks for.
    Do(Action),
    /// Give the terminal back.
    Leave,
    /// Exit with a status, after a message on standard error if there is one.
    Exit { status: u8, message: Option<String> },
}

/// A task as a value.
pub enum TaskView {
    Enter,
    Do(session::ActionView),
    Leave,
    Exit { status: u8, message: Option<Seq<char>> },
}

impl View for Task {
    type V = TaskView;

    open spec fn view(&self) -> TaskView {
        match *self {
            Task::Enter => TaskView::Enter,
            Task::Do(action) => TaskView::Do(action@),
            Task::Leave => TaskView::Leave,
            Task::Exit { status, message } => TaskView::Exit {
                status,
                message: args::chars_of(message),
            },
        }
    }
}

/// How the process exits after a session that ended in `end`.
pub open spec fn exit_after(end: Result<(), failures::FailureView>) -> TaskView {
    match end {
        Ok(()) => TaskView::Exit { status: 0, message: None },
        Err(failure) => TaskView::Exit { status: 1, message: Some(failure.message()) },
    }
}

/// A step of the session as a step of the program.
pub open spec fn lifted(step: (session::StateView, session::ActionView)) -> (
    ProgramView,
    TaskView,
) {
    match step.1 {
        session::ActionView::End(end) => (ProgramView::Leaving(end), TaskView::Leave),
        action => (ProgramView::Running(step.0), TaskView::Do(action)),
    }
}

/// The events that can come of what was asked for last.
pub open spec fn expects(program: ProgramView, event: session::EventView) -> bool {
    match program {
        ProgramView::Start => event is Begin,
        ProgramView::Entering => event is Done || event is Failed,
        ProgramView::Running(state) => session::expects(state, event),
        ProgramView::Leaving(_) => event is Done || event is Failed,
        ProgramView::Gone => false,
    }
}

/// A program whose session is sound.
pub open spec fn is_sound(program: ProgramView) -> bool {
    match program {
        ProgramView::Running(state) => session::is_sound(state),
        _ => true,
    }
}

/// The program after an event, and what to do next. That the terminal cannot be entered
/// ends the program at once; that it cannot be given back changes nothing.
pub open spec fn next(args: args::ArgsView, program: ProgramView, event: session::EventView) -> (
    ProgramView,
    TaskView,
) {
    match program {
        ProgramView::Start => (ProgramView::Entering, TaskView::Enter),
        ProgramView::Entering => match event {
            session::EventView::Failed(cause) => (
                ProgramView::Gone,
                exit_after(Err(failures::FailureView::Terminal { cause })),
            ),
            _ => lifted(
                session::next(args, session::StateView::Start, session::EventView::Begin),
            ),
        },
        ProgramView::Running(state) => lifted(session::next(args, state, event)),
        ProgramView::Leaving(end) => (ProgramView::Gone, exit_after(end)),
        ProgramView::Gone => (ProgramView::Gone, TaskView::Leave),
    }
}

/// Whether `event` can come of what was asked for last.
pub fn is_expected(program: &Program, event: &Event) -> (expected: bool)
    ensures
        expected == expects(program@, event@),
{
    let done: bool = matches!(event, Event::Done) || matches!(event, Event::Failed(_));
    match program {
        Program::Start => matches!(event, Event::Begin),
        Program::Entering => done,
        Program::Running(state) => session::is_expected(state, event),
        Program::Leaving(_) => done,
        Program::Gone => false,
    }
}

/// How the process exits after a session that ended in `end`.
fn exit(end: Result<(), Failure>) -> (task: Task)
    ensures
        task@ == exit_after(session::ending(end)),
{
    match end {
        Ok(()) => Task::Exit { status: 0, message: None },
        Err(failure) => Task::Exit { status: 1, message: Some(failure.message()) },
    }
}

/// A step of the session as a step of the program.
fn lift(step: (State, Action)) -> (lifted_step: (Program, Task))
    ensures
        (lifted_step.0@, lifted_step.1@) == lifted(session::step_view(step)),
{
    let (state, action) = step;
    match action {
        Action::End(end) => (Program::Leaving(end), Task::Leave),
        other => (Program::Running(state), Task::Do(other)),
    }
}

/// One step of the program: what to do after `event`, and how far the program has come.
pub fn run(args: &Args, program: Program, event: Event) -> (step: (Program, Task))
    requires
        is_sound(program@),
        expects(program@, event@),
    ensures
        (step.0@, step.1@) == next(args@, program@, event@),
        is_sound(step.0@),
{
    match program {
        Program::Start => (Program::Entering, Task::Enter),
        Program::Entering => match event {
            Event::Failed(cause) => (Program::Gone, exit(Err(Failure::Terminal { cause }))),
            _ => lift(session::run_tui(args, State::Start, Event::Begin)),
        },
        Program::Running(state) => lift(session::run_tui(args, state, event)),
        Program::Leaving(end) => (Program::Gone, exit(end)),
        Program::Gone => (Program::Gone, Task::Leave),
    }
}

/// How far the program has come after `events`.
pub open spec fn program_after(
    args: args::ArgsView,
    events: Seq<session::EventView>,
) -> ProgramView
    decreases events.len(),
{
    if events.len() == 0 {
        ProgramView::Start
    } else {
        next(args, program_after(args, events.drop_last()), events.last()).0
    }
}

/// What the program asked for after each of `events`.
pub open spec fn tasks_after(args: args::ArgsView, events: Seq<session::EventView>) -> Seq<TaskView>
    decreases events.len(),
{
    if events.len() == 0 {
        Seq::empty()
    } else {
        tasks_after(args, events.drop_last()).push(
            next(args, program_after(args, events.drop_last()), events.last()).1,
        )
    }
}

/// Each of `events` can come of what was asked for just before it.
pub open spec fn can_happen(args: args::ArgsView, events: Seq<session::EventView>) -> bool
    decreases events.len(),
{
    events.len() > 0 ==> {
        &&& can_happen(args, events.drop_last())
        &&& expects(program_after(args, events.drop_last()), events.last())
    }
}

proof fn lemma_tasks(args: args::ArgsView, events: Seq<session::EventView>)
    requires
        can_happen(args, events),
    ensures
        is_sound(program_after(args, events)),
        tasks_after(args, events).len() == events.len(),
        forall|i: int|
            0 < i < events.len() ==> !(#[trigger] tasks_after(args, events)[i] is Enter),
        match program_after(args, events) {
            ProgramView::Start => events.len() == 0,
            ProgramView::Entering => events.len() == 1 && tasks_after(args, events)[0] is Enter,
            ProgramView::Running(_) => {
                &&& events.len() >= 2
                &&& tasks_after(args, events)[0] is Enter
                &&& events[1] is Done
                &&& forall|i: int|
                    0 < i < events.len() ==> #[trigger] tasks_after(args, events)[i] is Do
            },
            ProgramView::Leaving(_) => {
                &&& events.len() >= 2
                &&& tasks_after(args, events)[0] is Enter
                &&& events[1] is Done
                &&& tasks_after(args, events).last() is Leave
                &&& forall|i: int|
                    0 < i < events.len() - 1 ==> #[trigger] tasks_after(args, events)[i] is Do
            },
            ProgramView::Gone => {
                &&& events.len() >= 2
                &&& tasks_after(args, events)[0] is Enter
                &&& tasks_after(args, events).last() is Exit
                &&& events[1] is Failed ==> events.len() == 2
                &&& !(events[1] is Failed) ==> {
                    &&& events[1] is Done
                    &&& events.len() >= 3
                    &&& tasks_after(args, events)[events.len() - 2] is Leave
                    &&& forall|i: int|
                        0 < i < events.len() - 2 ==> #[trigger] tasks_after(args, events)[i] is Do
                }
            },
        },
    decreases events.len(),
{
    if events.len() > 0 {
        let before = events.drop_last();
        lemma_tasks(args, before);
        let was = tasks_after(args, before);
        let is = tasks_after(args, events);
        assert forall|i: int| 0 <= i < before.len() implies #[trigger] is[i] == was[i] by {}
        assert forall|i: int| 0 <= i < before.len() implies #[trigger] events[i] == before[i] by {}
    }
}

/// The terminal is given back: if it was entered, then before the process exits it is
/// left, exactly once, just before the exit; if it was not, nothing is left.
pub proof fn law_terminal_is_given_back(
    args: args::ArgsView,
    events: Seq<session::EventView>,
    exit: int,
)
    requires
        can_happen(args, events),
        0 <= exit < events.len(),
        tasks_after(args, events)[exit] is Exit,
    ensures
        exit == events.len() - 1,
        exit >= 1,
        tasks_after(args, events)[0] is Enter,
        events[1] is Failed ==> exit == 1,
        !(events[1] is Failed) ==> exit >= 2 && tasks_after(args, events)[exit - 1] is Leave,
        forall|i: int|
            0 <= i < events.len() && #[trigger] tasks_after(args, events)[i] is Leave ==> i == exit
                - 1,
{
    lemma_tasks(args, events);
}

/// The session is run only while the terminal is held: what it asks for comes after the
/// terminal was entered and before it is left.
pub proof fn law_session_holds_terminal(
    args: args::ArgsView,
    events: Seq<session::EventView>,
    i: int,
    j: int,
)
    requires
        can_happen(args, events),
        0 <= i < events.len(),
        0 <= j < events.len(),
        tasks_after(args, events)[i] is Do,
    ensures
        i >= 1 && tasks_after(args, events)[0] is Enter && events[1] is Done,
        tasks_after(args, events)[j] is Leave ==> i < j,
{
    lemma_tasks(args, events);
}


/// The events of the session among those of the program: it begins once the terminal is
/// entered, and then hears of everything.
pub open spec fn session_events(events: Seq<session::EventView>) -> Seq<session::EventView> {
    seq![session::EventView::Begin] + events.skip(2)
}

/// While it runs, and when it has just ended, the session inside the program is one that
/// can happen, and the program asks for what the session asks for.
pub proof fn law_program_runs_session(args: args::ArgsView, events: Seq<session::EventView>)
    requires
        can_happen(args, events),
    ensures
        program_after(args, events) matches ProgramView::Running(state) ==> {
            &&& history::can_happen(args, session_events(events))
            &&& history::state_after(args, session_events(events)) == state
            &&& tasks_after(args, events).last() == TaskView::Do(
                history::actions_after(args, session_events(events)).last(),
            )
        },
        program_after(args, events) matches ProgramView::Leaving(end) ==> {
            &&& history::can_happen(args, session_events(events))
            &&& history::actions_after(args, session_events(events)).last()
                == session::ActionView::End(end)
        },
    decreases events.len(),
{
    lemma_tasks(args, events);
    if events.len() >= 2 {
        let before = events.drop_last();
        lemma_tasks(args, before);
        let inner = session_events(events);
        if events.len() == 2 {
            assert(inner == seq![session::EventView::Begin]);
            assert(inner.drop_last() == Seq::<session::EventView>::empty());
            assert(history::can_happen(args, inner.drop_last()));
        } else {
            law_program_runs_session(args, before);
            assert(inner.drop_last() == session_events(before));
            assert(inner.last() == events.last());
        }
    }
}

/// The process exits with status 0 only if the configuration was asked for and went well;
/// otherwise it exits with status 1 and says why.
pub proof fn law_status_tells_success(args: args::ArgsView, events: Seq<session::EventView>)
    requires
        can_happen(args, events),
        events.len() > 0,
    ensures
        tasks_after(args, events).last() matches TaskView::Exit { status, message } ==> {
            &&& status == 0 || status == 1
            &&& status == 1 <==> message is Some
            &&& status == 0 ==> history::can_happen(args, session_events(events.drop_last()))
                && history::was_configured(
                session_events(events.drop_last()),
                history::actions_after(args, session_events(events.drop_last())),
            )
        },
{
    let before = events.drop_last();
    lemma_tasks(args, before);
    law_program_runs_session(args, before);
    if program_after(args, before) == ProgramView::Leaving(Ok(())) {
        let inner = session_events(before);
        let actions = history::actions_after(args, inner);
        history::law_every_state_is_sound(args, inner);
        assert(actions[actions.len() - 1] == session::ActionView::End(Ok(())));
        history::law_success_means_configured(args, inner);
    }
}

/// The program starts by entering the terminal. If that fails, the process exits at once
/// with status 1 and the cause; if it succeeds, the session begins.
pub proof fn law_terminal_is_entered_first(
    args: &Args,
    begin: (Program, Task),
    cause: String,
    refused: (Program, Task),
    first: (State, Action),
    entered: (Program, Task),
)
    requires
        call_ensures(run, (args, Program::Start, Event::Begin), begin),
        call_ensures(run, (args, Program::Entering, Event::Failed(cause)), refused),
        call_ensures(session::run_tui, (args, State::Start, Event::Begin), first),
        call_ensures(run, (args, Program::Entering, Event::Done), entered),
    ensures
        begin.0 is Entering && begin.1 is Enter,
        refused.0 is Gone,
        refused.1 matches Task::Exit { status, message } && status == 1 && (
        message matches Some(text) && text@ == cause@),
        entered.0 matches Program::Running(state) && state@ == first.0@,
        entered.1 matches Task::Do(action) && action@ == first.1@,
{
}

/// Every step of the session is handed on as it is, until the session ends; then the
/// terminal is left, and how the session ended is kept.
pub proof fn law_session_is_handed_on(
    args: &Args,
    state: State,
    event: Event,
    step: (State, Action),
    handed: (Program, Task),
)
    requires
        call_ensures(session::run_tui, (args, state, event), step),
        call_ensures(run, (args, Program::Running(state), event), handed),
    ensures
        match step.1 {
            Action::End(end) => {
                &&& handed.1 is Leave
                &&& handed.0 matches Program::Leaving(kept) && match (end, kept) {
                    (Ok(()), Ok(())) => true,
                    (Err(failure), Err(same)) => same@ == failure@,
                    _ => false,
                }
            },
            action => {
                &&& handed.0 matches Program::Running(next) && next@ == step.0@
                &&& handed.1 matches Task::Do(asked) && asked@ == action@
            },
        },
{
    match step.1 {
        Action::End(end) => {
            assert(step.1@ == session::ActionView::End(session::ending(end)));
        },
        _ => {},
    }
}

/// Whether or not the terminal could be left, the process exits as the session ended: with
/// status 0 and nothing said if it ended well, and otherwise with status 1 and the message of
/// the failure.
pub proof fn law_exit_tells_how_it_ended(
    args: &Args,
    end: Result<(), Failure>,
    event: Event,
    gone: (Program, Task),
)
    requires
        call_ensures(run, (args, Program::Leaving(end), event), gone),
    ensures
        gone.0 is Gone,
        gone.1 matches Task::Exit { status, message } && match end {
            Ok(()) => status == 0 && message is None,
            Err(failure) => {
                &&& status == 1
                &&& message is Some
                &&& forall|told: String| #[trigger]
                    call_ensures(Failure::message, (&failure,), told) ==> message->0@ == told@
            },
        },
{
}

/// Which events can come of what the program asked for.
pub proof fn law_what_can_come_of_a_task(
    state: State,
    event: &Event,
    start: bool,
    entering: bool,
    running: bool,
    inner: bool,
    end: Result<(), Failure>,
    leaving: bool,
    gone: bool,
)
    requires
        call_ensures(is_expected, (&Program::Start, event), start),
        call_ensures(is_expected, (&Program::Entering, event), entering),
        call_ensures(is_expected, (&Program::Running(state), event), running),
        call_ensures(session::is_expected, (&state, event), inner),
        call_ensures(is_expected, (&Program::Leaving(end), event), leaving),
        call_ensures(is_expected, (&Program::Gone, event), gone),
    ensures
        start <==> *event is Begin,
        entering <==> *event is Done || *event is Failed,
        running <==> inner,
        leaving <==> *event is Done || *event is Failed,
        !gone,
{
}

} // verus!
