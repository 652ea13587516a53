//! What holds of every session, whatever happens in it.

use crate::args;
use crate::args::Args;
use crate::commands;
use crate::commands::Tool;
use crate::keys;
use crate::schemes;
use crate::screens;
use crate::session;
use crate::targets;
use crate::text;
use vstd::prelude::*;

verus! {

/// How far a session has come after `events`.
pub open spec fn state_after(
    args: args::ArgsView,
    events: Seq<session::EventView>,
) -> session::StateView
    decreases events.len(),
{
    if events.len() == 0 {
        session::StateView::Start
    } else {
        session::next(args, state_after(args, events.drop_last()), events.last()).0
    }
}

/// What a session asked for after each of `events`.
pub open spec fn actions_after(
    args: args::ArgsView,
    events: Seq<session::EventView>,
) -> Seq<session::ActionView>
    decreases events.len(),
{
    if events.len() == 0 {
        Seq::empty()
    } else {
        actions_after(args, events.drop_last()).push(
            session::next(args, state_after(args, events.drop_last()), events.last()).1,
        )
    }
}

/// Each of `events` can come of what was asked for just before it.
pub open spec fn can_happen(args: args::ArgsView, events: Seq<session::EventView>) -> bool
    decreases events.len(),
{
    events.len() > 0 ==> {
        &&& can_happen(args, events.drop_last())
        &&& session::expects(state_after(args, events.drop_last()), events.last())
    }
}

/// A session never leaves its sound states.
pub proof fn law_every_state_is_sound(args: args::ArgsView, events: Seq<session::EventView>)
    requires
        can_happen(args, events),
    ensures
        session::is_sound(state_after(args, events)),
        actions_after(args, events).len() == events.len(),
    decreases events.len(),
{
    if events.len() > 0 {
        law_every_state_is_sound(args, events.drop_last());
    }
}

/// The session has asked for both tools, and both were there.
pub open spec fn tools_are_there(
    events: Seq<session::EventView>,
    actions: Seq<session::ActionView>,
) -> bool {
    &&& events.len() >= 3
    &&& actions.len() >= 2
    &&& actions[0] == session::ActionView::Find(Tool::Xcodebuild)
    &&& events[1] is Done
    &&& actions[1] == session::ActionView::Find(Tool::BuildServer)
    &&& events[2] is Done
}

/// Nothing is shown, walked or run, and no key is asked for, before both tools have been
/// looked for and found; nor does a session end well before that.
pub proof fn law_tools_come_first(args: args::ArgsView, events: Seq<session::EventView>, i: int)
    requires
        can_happen(args, events),
        0 <= i < events.len(),
        !(actions_after(args, events)[i] is Find),
        !(actions_after(args, events)[i] matches session::ActionView::End(Err(_))),
    ensures
        i >= 2,
        tools_are_there(events, actions_after(args, events)),
{
    lemma_tools(args, events);
}

proof fn lemma_tools(args: args::ArgsView, events: Seq<session::EventView>)
    requires
        can_happen(args, events),
    ensures
        actions_after(args, events).len() == events.len(),
        match state_after(args, events) {
            session::StateView::Start => events.len() == 0,
            session::StateView::Finding { tool } => match tool {
                Tool::Xcodebuild => {
                    &&& events.len() == 1
                    &&& actions_after(args, events)[0] == session::ActionView::Find(tool)
                },
                Tool::BuildServer => {
                    &&& events.len() == 2
                    &&& actions_after(args, events)[0] == session::ActionView::Find(
                        Tool::Xcodebuild,
                    )
                    &&& events[1] is Done
                    &&& actions_after(args, events)[1] == session::ActionView::Find(tool)
                },
            },
            session::StateView::Ended => true,
            _ => tools_are_there(events, actions_after(args, events)),
        },
        forall|i: int|
            0 <= i < events.len() && !(#[trigger] actions_after(args, events)[i] is Find) && !(
            actions_after(args, events)[i] matches session::ActionView::End(Err(_))) ==> i >= 2
                && tools_are_there(events, actions_after(args, events)),
    decreases events.len(),
{
    if events.len() > 0 {
        let before = events.drop_last();
        lemma_tools(args, before);
        let was = actions_after(args, before);
        let is = actions_after(args, events);
        assert forall|i: int| 0 <= i < before.len() implies is[i] == was[i] by {}
        if tools_are_there(before, was) {
            assert(tools_are_there(events, is));
        }
        assert forall|i: int|
            0 <= i < events.len() && !(#[trigger] is[i] is Find) && !(
            is[i] matches session::ActionView::End(Err(_))) implies i >= 2 && tools_are_there(
            events,
            is,
        ) by {
            if i < before.len() {
                assert(is[i] == was[i]);
                assert(!(was[i] is Find));
            }
        }
    }
}

/// The target that a state is about.
pub open spec fn target_of(state: session::StateView) -> Option<targets::TargetView> {
    match state {
        session::StateView::ShowingList { target } => Some(target),
        session::StateView::Listing { target } => Some(target),
        session::StateView::PickingScheme { target, .. } => Some(target),
        session::StateView::ShowingConfig { target, .. } => Some(target),
        _ => None,
    }
}

/// A call of a program about `target`.
pub open spec fn is_about(call: commands::InvocationView, target: targets::TargetView) -> bool {
    ||| call == commands::list_call(target)
    ||| exists|scheme: Seq<char>| call == #[trigger] commands::config_call(target, scheme)
}

/// A target on the command line is used as it is: no directory is walked, no target is
/// picked, and every program is called about that target.
pub proof fn law_named_target_is_used(
    args: args::ArgsView,
    events: Seq<session::EventView>,
    target: targets::TargetView,
)
    requires
        can_happen(args, events),
        targets::named_target(args) == Some(target),
    ensures
        !(state_after(args, events) is PickingTarget),
        forall|i: int|
            0 <= i < events.len() ==> !(#[trigger] actions_after(args, events)[i] is Walk),
        forall|i: int|
            0 <= i < events.len() ==> (#[trigger] actions_after(
                args,
                events,
            )[i] matches session::ActionView::Run(call) ==> is_about(call, target)),
{
    lemma_named_target(args, events, target);
}

proof fn lemma_named_target(
    args: args::ArgsView,
    events: Seq<session::EventView>,
    target: targets::TargetView,
)
    requires
        can_happen(args, events),
        targets::named_target(args) == Some(target),
    ensures
        actions_after(args, events).len() == events.len(),
        !(state_after(args, events) is ShowingScan),
        !(state_after(args, events) is Scanning),
        !(state_after(args, events) is PickingTarget),
        target_of(state_after(args, events)) is Some ==> target_of(state_after(args, events))
            == Some(target),
        forall|i: int|
            0 <= i < events.len() ==> !(#[trigger] actions_after(args, events)[i] is Walk),
        forall|i: int|
            0 <= i < events.len() ==> (#[trigger] actions_after(
                args,
                events,
            )[i] matches session::ActionView::Run(call) ==> is_about(call, target)),
    decreases events.len(),
{
    if events.len() > 0 {
        let before = events.drop_last();
        lemma_named_target(args, before, target);
        let was = actions_after(args, before);
        let is = actions_after(args, events);
        assert forall|i: int| 0 <= i < events.len() implies !(#[trigger] is[i] is Walk) && (
        is[i] matches session::ActionView::Run(call) ==> is_about(call, target)) by {
            if i < before.len() {
                assert(is[i] == was[i]);
            } else {
                if let session::StateView::ShowingConfig { scheme, .. } = state_after(
                    args,
                    before,
                ) {
                    assert(is_about(commands::config_call(target, scheme), target));
                }
            }
        }
    }
}

/// A scheme on the command line is used as it is: no schemes are listed, none is picked,
/// and the configuration is asked for that scheme.
pub proof fn law_given_scheme_is_used(
    args: args::ArgsView,
    events: Seq<session::EventView>,
    scheme: Seq<char>,
)
    requires
        can_happen(args, events),
        args.scheme == Some(scheme),
    ensures
        !(state_after(args, events) is PickingScheme),
        forall|i: int|
            0 <= i < events.len() ==> (#[trigger] actions_after(
                args,
                events,
            )[i] matches session::ActionView::Run(call) ==> exists|target: targets::TargetView|
                call == #[trigger] commands::config_call(target, scheme)),
{
    lemma_given_scheme(args, events, scheme);
}

proof fn lemma_given_scheme(
    args: args::ArgsView,
    events: Seq<session::EventView>,
    scheme: Seq<char>,
)
    requires
        can_happen(args, events),
        args.scheme == Some(scheme),
    ensures
        actions_after(args, events).len() == events.len(),
        !(state_after(args, events) is ShowingList),
        !(state_after(args, events) is Listing),
        !(state_after(args, events) is PickingScheme),
        state_after(args, events) matches session::StateView::ShowingConfig { scheme: s, .. }
            ==> s == scheme,
        forall|i: int|
            0 <= i < events.len() ==> (#[trigger] actions_after(
                args,
                events,
            )[i] matches session::ActionView::Run(call) ==> exists|target: targets::TargetView|
                call == #[trigger] commands::config_call(target, scheme)),
    decreases events.len(),
{
    if events.len() > 0 {
        let before = events.drop_last();
        lemma_given_scheme(args, before, scheme);
        let was = actions_after(args, before);
        let is = actions_after(args, events);
        assert forall|i: int| 0 <= i < events.len() implies (
        #[trigger] is[i] matches session::ActionView::Run(call) ==> exists|
            target: targets::TargetView,
        | call == #[trigger] commands::config_call(target, scheme)) by {
            if i < before.len() {
                assert(is[i] == was[i]);
            }
        }
    }
}

/// Without interaction no target and no scheme is ever asked for.
pub proof fn law_non_interactive_asks_nothing(
    args: args::ArgsView,
    events: Seq<session::EventView>,
)
    requires
        can_happen(args, events),
        args.non_interactive,
    ensures
        !(state_after(args, events) is PickingTarget),
        !(state_after(args, events) is PickingScheme),
    decreases events.len(),
{
    if events.len() > 0 {
        law_non_interactive_asks_nothing(args, events.drop_last());
    }
}

/// Without interaction the first target that a walk came to is used, and the first scheme
/// that a listing names.
pub proof fn law_non_interactive_takes_first(
    args: args::ArgsView,
    target: targets::TargetView,
    items: Seq<targets::WalkItem>,
    output: commands::OutputView,
)
    requires
        args.non_interactive,
    ensures
        targets::found_targets(items, args.prefer_workspace).len() > 0 ==> session::next(
            args,
            session::StateView::Scanning,
            session::EventView::Walked(items),
        ) == session::with_target(args, targets::found_targets(items, args.prefer_workspace)[0]),
        output.success && schemes::schemes_in(text::text_of(output.stdout)).len() > 0
            ==> session::next(
            args,
            session::StateView::Listing { target },
            session::EventView::Ran(output),
        ) == session::with_scheme(
            target,
            schemes::schemes_in(text::text_of(output.stdout))[0],
        ),
{
}

/// `target` was on the command line, or the walk that was asked for came to it.
pub open spec fn target_was_offered(
    args: args::ArgsView,
    events: Seq<session::EventView>,
    target: targets::TargetView,
) -> bool {
    match targets::named_target(args) {
        Some(named) => target == named,
        None => exists|i: int|
            {
                &&& 0 <= i < events.len()
                &&& #[trigger] events[i] matches session::EventView::Walked(items)
                    && targets::found_targets(items, args.prefer_workspace).contains(target)
            },
    }
}

/// `scheme` was on the command line, or a listing of the schemes of `target` names it.
pub open spec fn scheme_was_offered(
    args: args::ArgsView,
    events: Seq<session::EventView>,
    target: targets::TargetView,
    scheme: Seq<char>,
) -> bool {
    match args.scheme {
        Some(given) => scheme == given,
        None => exists|i: int|
            {
                &&& 0 < i < events.len()
                &&& actions_after(args, events)[i - 1] == session::ActionView::Run(
                    commands::list_call(target),
                )
                &&& #[trigger] events[i] matches session::EventView::Ran(output) && output.success
                    && schemes::schemes_in(text::text_of(output.stdout)).contains(scheme)
            },
    }
}

/// What a state lets the user choose from, or has settled on, was offered.
pub open spec fn items_offered(
    args: args::ArgsView,
    events: Seq<session::EventView>,
    state: session::StateView,
) -> bool {
    match state {
        session::StateView::PickingTarget { screen } => forall|i: int|
            0 <= i < screen->PickTarget_items.len() ==> target_was_offered(
                args,
                events,
                #[trigger] screen->PickTarget_items[i],
            ),
        session::StateView::PickingScheme { target, screen } => forall|i: int|
            0 <= i < screen->PickScheme_items.len() ==> scheme_was_offered(
                args,
                events,
                target,
                #[trigger] screen->PickScheme_items[i],
            ),
        session::StateView::ShowingConfig { target, scheme } => scheme_was_offered(
            args,
            events,
            target,
            scheme,
        ),
        _ => true,
    }
}

proof fn lemma_offers_last(
    args: args::ArgsView,
    events: Seq<session::EventView>,
    target: targets::TargetView,
    scheme: Seq<char>,
)
    requires
        can_happen(args, events),
        events.len() > 0,
    ensures
        target_was_offered(args, events.drop_last(), target) ==> target_was_offered(
            args,
            events,
            target,
        ),
        scheme_was_offered(args, events.drop_last(), target, scheme) ==> scheme_was_offered(
            args,
            events,
            target,
            scheme,
        ),
{
    let before = events.drop_last();
    law_every_state_is_sound(args, before);
    let was = actions_after(args, before);
    let is = actions_after(args, events);
    if target_was_offered(args, before, target) && targets::named_target(args) is None {
        let i = choose|i: int|
            {
                &&& 0 <= i < before.len()
                &&& #[trigger] before[i] matches session::EventView::Walked(items)
                    && targets::found_targets(items, args.prefer_workspace).contains(target)
            };
        assert(events[i] == before[i]);
    }
    if scheme_was_offered(args, before, target, scheme) && args.scheme is None {
        let i = choose|i: int|
            {
                &&& 0 < i < before.len()
                &&& was[i - 1] == session::ActionView::Run(commands::list_call(target))
                &&& #[trigger] before[i] matches session::EventView::Ran(output) && output.success
                    && schemes::schemes_in(text::text_of(output.stdout)).contains(scheme)
            };
        assert(events[i] == before[i]);
        assert(is[i - 1] == was[i - 1]);
    }
}


/// `call` asks for something that was offered: the schemes of an offered target, or the
/// configuration for an offered target and an offered scheme of it.
pub open spec fn asks_for_offered(
    args: args::ArgsView,
    events: Seq<session::EventView>,
    call: commands::InvocationView,
) -> bool {
    exists|target: targets::TargetView|
        {
            &&& #[trigger] target_was_offered(args, events, target)
            &&& {
                ||| call == commands::list_call(target)
                ||| exists|scheme: Seq<char>|
                    {
                        &&& #[trigger] scheme_was_offered(args, events, target, scheme)
                        &&& call == commands::config_call(target, scheme)
                    }
            }
        }
}

proof fn lemma_asks_last(
    args: args::ArgsView,
    events: Seq<session::EventView>,
    call: commands::InvocationView,
)
    requires
        can_happen(args, events),
        events.len() > 0,
        asks_for_offered(args, events.drop_last(), call),
    ensures
        asks_for_offered(args, events, call),
{
    let before = events.drop_last();
    let target = choose|target: targets::TargetView|
        {
            &&& #[trigger] target_was_offered(args, before, target)
            &&& {
                ||| call == commands::list_call(target)
                ||| exists|scheme: Seq<char>|
                    {
                        &&& #[trigger] scheme_was_offered(args, before, target, scheme)
                        &&& call == commands::config_call(target, scheme)
                    }
            }
        };
    lemma_offers_last(args, events, target, Seq::empty());
    if call != commands::list_call(target) {
        let scheme = choose|scheme: Seq<char>|
            {
                &&& #[trigger] scheme_was_offered(args, before, target, scheme)
                &&& call == commands::config_call(target, scheme)
            };
        lemma_offers_last(args, events, target, scheme);
        assert(scheme_was_offered(args, events, target, scheme));
    }
    assert(target_was_offered(args, events, target));
}

/// Programs are called only for what was offered. A target comes from the command line or
/// from the walk; a scheme comes from the command line or from the listing of its target.
pub proof fn law_programs_get_what_was_offered(
    args: args::ArgsView,
    events: Seq<session::EventView>,
    i: int,
)
    requires
        can_happen(args, events),
        0 <= i < events.len(),
    ensures
        actions_after(args, events)[i] matches session::ActionView::Run(call) ==> asks_for_offered(
            args,
            events,
            call,
        ),
{
    lemma_offers(args, events);
}

proof fn lemma_offers(args: args::ArgsView, events: Seq<session::EventView>)
    requires
        can_happen(args, events),
    ensures
        actions_after(args, events).len() == events.len(),
        items_offered(args, events, state_after(args, events)),
        target_of(state_after(args, events)) matches Some(target) ==> target_was_offered(
            args,
            events,
            target,
        ),
        state_after(args, events) matches session::StateView::Listing { target } ==> {
            &&& events.len() > 0
            &&& args.scheme is None
            &&& actions_after(args, events).last() == session::ActionView::Run(
                commands::list_call(target),
            )
        },
        state_after(args, events) is ShowingList ==> args.scheme is None,
        state_after(args, events) is ShowingScan ==> targets::named_target(args) is None,
        state_after(args, events) is Scanning ==> targets::named_target(args) is None,
        forall|i: int|
            0 <= i < events.len() ==> (#[trigger] actions_after(
                args,
                events,
            )[i] matches session::ActionView::Run(call) ==> asks_for_offered(args, events, call)),
    decreases events.len(),
{
    if events.len() > 0 {
        let before = events.drop_last();
        lemma_offers(args, before);
        law_every_state_is_sound(args, before);
        let was = actions_after(args, before);
        let is = actions_after(args, events);
        let old_state = state_after(args, before);
        let state = state_after(args, events);
        let last = events.len() - 1;
        assert(events[last] == events.last());
        // Whatever was offered still is.
        assert forall|target: targets::TargetView, scheme: Seq<char>|
            scheme_was_offered(args, before, target, scheme) implies #[trigger] scheme_was_offered(
            args,
            events,
            target,
            scheme,
        ) by {
            lemma_offers_last(args, events, target, scheme);
        }
        assert forall|target: targets::TargetView|
            target_was_offered(args, before, target) implies #[trigger] target_was_offered(
            args,
            events,
            target,
        ) by {
            lemma_offers_last(args, events, target, Seq::empty());
        }
        // A walk offers what it came to.
        if let session::EventView::Walked(items) = events.last() {
            let found = targets::found_targets(items, args.prefer_workspace);
            assert forall|k: int| 0 <= k < found.len() implies target_was_offered(
                args,
                events,
                #[trigger] found[k],
            ) by {
                assert(found.contains(found[k]));
                assert(events[last] matches session::EventView::Walked(items)
                    && targets::found_targets(items, args.prefer_workspace).contains(found[k]));
            }
        }
        // A listing offers the schemes that it names.
        if let session::EventView::Ran(output) = events.last() {
            if let session::StateView::Listing { target } = old_state {
                let found = schemes::schemes_in(text::text_of(output.stdout));
                assert(is[last - 1] == was.last());
                assert forall|k: int| output.success && 0 <= k < found.len() implies
                    scheme_was_offered(args, events, target, #[trigger] found[k]) by {
                    assert(found.contains(found[k]));
                    assert(events[last] matches session::EventView::Ran(output) && output.success
                        && schemes::schemes_in(text::text_of(output.stdout)).contains(
                        found[k],
                    ));
                }
            }
        }
        assert forall|i: int| 0 <= i < events.len() implies (
        #[trigger] is[i] matches session::ActionView::Run(call) ==> asks_for_offered(
            args,
            events,
            call,
        )) by {
            if i < before.len() {
                assert(is[i] == was[i]);
                if let session::ActionView::Run(call) = is[i] {
                    lemma_asks_last(args, events, call);
                }
            } else {
                if let session::StateView::ShowingList { target } = old_state {
                    assert(target_was_offered(args, events, target));
                }
                if let session::StateView::ShowingConfig { target, scheme } = old_state {
                    assert(target_was_offered(args, events, target));
                    assert(scheme_was_offered(args, events, target, scheme));
                }
            }
        }
    }
}

/// The configuration was asked for, and it went well.
pub open spec fn was_configured(
    events: Seq<session::EventView>,
    actions: Seq<session::ActionView>,
) -> bool {
    exists|i: int|
        {
            &&& 0 < i < events.len()
            &&& i <= actions.len()
            &&& actions[i - 1] matches session::ActionView::Run(call) && call.tool
                == Tool::BuildServer
            &&& #[trigger] events[i] matches session::EventView::Ran(output) && output.success
        }
}

/// A session ends well only if the configuration was asked for and went well.
pub proof fn law_success_means_configured(args: args::ArgsView, events: Seq<session::EventView>)
    requires
        can_happen(args, events),
        actions_after(args, events).contains(session::ActionView::End(Ok(()))),
    ensures
        was_configured(events, actions_after(args, events)),
{
    lemma_success(args, events);
    let actions = actions_after(args, events);
    let i = choose|i: int| 0 <= i < actions.len() && actions[i] == session::ActionView::End(Ok(()));
    assert(actions[i] == session::ActionView::End(Ok(())));
}

proof fn lemma_success(args: args::ArgsView, events: Seq<session::EventView>)
    requires
        can_happen(args, events),
    ensures
        actions_after(args, events).len() == events.len(),
        state_after(args, events) is Configuring ==> {
            &&& events.len() > 0
            &&& actions_after(args, events).last() matches session::ActionView::Run(call)
                && call.tool == Tool::BuildServer
        },
        state_after(args, events) matches session::StateView::Finishing { succeeded, .. } ==> (
        succeeded ==> was_configured(events, actions_after(args, events))),
        forall|i: int|
            0 <= i < events.len() && #[trigger] actions_after(args, events)[i]
                == session::ActionView::End(Ok(())) ==> was_configured(
                events,
                actions_after(args, events),
            ),
    decreases events.len(),
{
    if events.len() > 0 {
        let before = events.drop_last();
        lemma_success(args, before);
        let was = actions_after(args, before);
        let is = actions_after(args, events);
        if was_configured(before, was) {
            let i = choose|i: int|
                {
                    &&& 0 < i < before.len()
                    &&& i <= was.len()
                    &&& was[i - 1] matches session::ActionView::Run(call) && call.tool
                        == Tool::BuildServer
                    &&& #[trigger] before[i] matches session::EventView::Ran(output)
                        && output.success
                };
            assert(events[i] == before[i]);
            assert(is[i - 1] == was[i - 1]);
            assert(was_configured(events, is));
        }
        if state_after(args, before) is Configuring {
            assert(is[events.len() - 2] == was.last());
            assert(events[events.len() - 1] == events.last());
            if let session::EventView::Ran(output) = events.last() {
                if output.success {
                    assert(was_configured(events, is));
                }
            }
        }
        assert forall|i: int|
            0 <= i < events.len() && #[trigger] is[i] == session::ActionView::End(
                Ok(()),
            ) implies was_configured(events, is) by {
            if i < before.len() {
                assert(is[i] == was[i]);
            }
        }
    }
}

/// A session ends once: nothing is asked for after its end, and it is over exactly when
/// its end was asked for.
pub proof fn law_end_comes_last(args: args::ArgsView, events: Seq<session::EventView>)
    requires
        can_happen(args, events),
    ensures
        forall|i: int|
            0 <= i < events.len() && #[trigger] actions_after(args, events)[i] is End ==> i
                == events.len() - 1,
        state_after(args, events) is Ended <==> events.len() > 0 && actions_after(
            args,
            events,
        ).last() is End,
    decreases events.len(),
{
    law_every_state_is_sound(args, events);
    if events.len() > 0 {
        let before = events.drop_last();
        law_every_state_is_sound(args, before);
        law_end_comes_last(args, before);
        let was = actions_after(args, before);
        let is = actions_after(args, events);
        assert forall|i: int| 0 <= i < events.len() && #[trigger] is[i] is End implies i
            == events.len() - 1 by {
            if i < before.len() {
                assert(is[i] == was[i]);
                assert(i == before.len() - 1);
                assert(was.last() is End);
            }
        }
    }
}

/// How far along the way from start to end a state lies.
pub open spec fn stage(state: session::StateView) -> int {
    match state {
        session::StateView::Start => 0,
        session::StateView::Finding { tool: Tool::Xcodebuild } => 1,
        session::StateView::Finding { tool: Tool::BuildServer } => 2,
        session::StateView::ShowingScan => 3,
        session::StateView::Scanning => 4,
        session::StateView::PickingTarget { .. } => 5,
        session::StateView::ShowingList { .. } => 6,
        session::StateView::Listing { .. } => 7,
        session::StateView::PickingScheme { .. } => 8,
        session::StateView::ShowingConfig { .. } => 9,
        session::StateView::Configuring => 10,
        session::StateView::Finishing { .. } => 11,
        session::StateView::Ended => 12,
    }
}

/// A session only moves forward. It stays where it is just while it looks for a key.
pub proof fn law_session_moves_forward(
    args: args::ArgsView,
    events: Seq<session::EventView>,
    event: session::EventView,
)
    requires
        can_happen(args, events.push(event)),
    ensures
        stage(state_after(args, events)) <= stage(state_after(args, events.push(event))),
        stage(state_after(args, events)) == stage(state_after(args, events.push(event))) ==> (
        event is Looked && actions_after(args, events.push(event)).last() is Look),
{
    assert(events.push(event).drop_last() == events);
    law_every_state_is_sound(args, events);
}

/// Two actions that start the same work: a search for the same tool, a walk, or a run of
/// the same tool.
pub open spec fn same_work(a: session::ActionView, b: session::ActionView) -> bool {
    match (a, b) {
        (session::ActionView::Find(one), session::ActionView::Find(other)) => one == other,
        (session::ActionView::Walk(_), session::ActionView::Walk(_)) => true,
        (session::ActionView::Run(one), session::ActionView::Run(other)) => one.tool == other.tool,
        _ => false,
    }
}

/// Nothing is done twice: a session looks for each tool, walks the directories and runs
/// each tool at most once. So no more than one configuration is written.
pub proof fn law_nothing_is_done_twice(
    args: args::ArgsView,
    events: Seq<session::EventView>,
    i: int,
    j: int,
)
    requires
        can_happen(args, events),
        0 <= i < events.len(),
        0 <= j < events.len(),
        same_work(actions_after(args, events)[i], actions_after(args, events)[j]),
    ensures
        i == j,
    decreases events.len(),
{
    let before = events.drop_last();
    lemma_work_is_behind(args, before);
    law_every_state_is_sound(args, before);
    let was = actions_after(args, before);
    let is = actions_after(args, events);
    if i < before.len() {
        assert(is[i] == was[i]);
    }
    if j < before.len() {
        assert(is[j] == was[j]);
    }
    if i < before.len() && j < before.len() {
        law_nothing_is_done_twice(args, before, i, j);
    }
}

/// The stage that an action which starts some work leads to.
spec fn stage_of_work(action: session::ActionView) -> int {
    match action {
        session::ActionView::Find(Tool::Xcodebuild) => 1,
        session::ActionView::Find(Tool::BuildServer) => 2,
        session::ActionView::Walk(_) => 4,
        session::ActionView::Run(call) => match call.tool {
            Tool::Xcodebuild => 7,
            Tool::BuildServer => 10,
        },
        _ => 0,
    }
}

proof fn lemma_work_is_behind(args: args::ArgsView, events: Seq<session::EventView>)
    requires
        can_happen(args, events),
    ensures
        actions_after(args, events).len() == events.len(),
        forall|i: int|
            0 <= i < events.len() ==> stage_of_work(#[trigger] actions_after(args, events)[i])
                <= stage(state_after(args, events)),
    decreases events.len(),
{
    if events.len() > 0 {
        let before = events.drop_last();
        lemma_work_is_behind(args, before);
        assert(before.push(events.last()) == events);
        law_session_moves_forward(args, before, events.last());
        law_every_state_is_sound(args, before);
        let was = actions_after(args, before);
        let is = actions_after(args, events);
        assert forall|i: int| 0 <= i < events.len() implies stage_of_work(#[trigger] is[i])
            <= stage(state_after(args, events)) by {
            if i < before.len() {
                assert(is[i] == was[i]);
            }
        }
    }
}

/// How far the text of a screen is scrolled.
pub open spec fn scroll_of(screen: screens::ScreenView) -> int {
    match screen {
        screens::ScreenView::Done { scroll, .. } => scroll,
        screens::ScreenView::Error { scroll, .. } => scroll,
        _ => 0,
    }
}

/// However long a key is held down, an outcome stays scrolled to a line that a signed
/// number of 16 bits can count.
pub proof fn law_scroll_stays_in_range(args: args::ArgsView, events: Seq<session::EventView>)
    requires
        can_happen(args, events),
    ensures
        state_after(args, events) matches session::StateView::Finishing { screen, .. } ==> 0
            <= scroll_of(screen) <= i16::MAX,
    decreases events.len(),
{
    if events.len() > 0 {
        let before = events.drop_last();
        law_scroll_stays_in_range(args, before);
        law_every_state_is_sound(args, before);
    }
}

/// The arguments behind the first of a call name this target: the option for its kind, then
/// the bytes of its path.
pub open spec fn names_target(
    call: commands::InvocationView,
    option: Seq<char>,
    path: Seq<u8>,
) -> bool {
    &&& call.arguments.len() >= 3
    &&& call.arguments[1] == commands::ArgumentView::Text(option)
    &&& call.arguments[2] == commands::ArgumentView::Path(path)
}

/// The last arguments of a call are `-scheme` and this scheme.
pub open spec fn names_scheme(call: commands::InvocationView, scheme: Seq<char>) -> bool {
    &&& call.tool == Tool::BuildServer
    &&& call.arguments.len() == 5
    &&& call.arguments[3] == commands::ArgumentView::Text("-scheme"@)
    &&& call.arguments[4] == commands::ArgumentView::Text(scheme)
}

/// In a session with a workspace on the command line, or a project and no workspace, nothing
/// is walked, no target is picked, and every program is called for that workspace or that
/// project, whatever else is on the command line and whatever happens.
pub proof fn law_session_keeps_to_named_target(
    args: Args,
    events: Seq<session::EventView>,
    i: int,
)
    requires
        args.workspace is Some || args.project is Some,
        can_happen(args@, events),
        0 <= i < events.len(),
    ensures
        !(actions_after(args@, events)[i] is Walk),
        !(state_after(args@, events) is PickingTarget),
        actions_after(args@, events)[i] matches session::ActionView::Run(call) ==> match (
            args.workspace,
            args.project,
        ) {
            (Some(path), _) => names_target(call, "-workspace"@, path@),
            (None, Some(path)) => names_target(call, "-project"@, path@),
            (None, None) => false,
        },
{
    let target = match args.workspace {
        Some(path) => targets::TargetView::Workspace(path@),
        None => targets::TargetView::Project(args.project->0@),
    };
    assert(targets::named_target(args@) == Some(target));
    law_named_target_is_used(args@, events, target);
    if let session::ActionView::Run(call) = actions_after(args@, events)[i] {
        assert(is_about(call, target));
        if call != commands::list_call(target) {
            let scheme = choose|scheme: Seq<char>|
                call == #[trigger] commands::config_call(target, scheme);
            assert(call.arguments == commands::config_call(target, scheme).arguments);
        }
    }
}

/// In a session with a scheme on the command line no scheme is listed or picked, and the only
/// program that is called is asked for that scheme.
pub proof fn law_session_keeps_to_given_scheme(
    args: Args,
    events: Seq<session::EventView>,
    i: int,
)
    requires
        args.scheme is Some,
        can_happen(args@, events),
        0 <= i < events.len(),
    ensures
        !(state_after(args@, events) is PickingScheme),
        actions_after(args@, events)[i] matches session::ActionView::Run(call) ==> names_scheme(
            call,
            args.scheme->0@,
        ),
{
    let scheme = args.scheme->0@;
    law_given_scheme_is_used(args@, events, scheme);
    if let session::ActionView::Run(call) = actions_after(args@, events)[i] {
        let target = choose|target: targets::TargetView|
            call == #[trigger] commands::config_call(target, scheme);
        assert(call.arguments == commands::config_call(target, scheme).arguments);
    }
}

/// In a session without interaction keys are looked for only once the configuration is over.
pub proof fn law_session_without_interaction(args: Args, events: Seq<session::EventView>)
    requires
        args.non_interactive,
        can_happen(args@, events),
        events.len() > 0,
        actions_after(args@, events).last() is Look,
    ensures
        state_after(args@, events) is Finishing,
{
    law_every_state_is_sound(args@, events.drop_last());
    law_non_interactive_asks_nothing(args@, events.drop_last());
    law_non_interactive_asks_nothing(args@, events);
}

/// Just before the event at `j`, the schemes of a target were on the screen with one of them
/// selected; that event is the press of enter; and `target` and `scheme` are that target and
/// the scheme selected.
pub open spec fn was_taken(
    args: args::ArgsView,
    events: Seq<session::EventView>,
    j: int,
    target: targets::TargetView,
    scheme: Seq<char>,
) -> bool {
    &&& 0 <= j < events.len()
    &&& events[j] matches session::EventView::Looked(input) && keys::takes(input)
    &&& state_after(args, events.take(j)) matches session::StateView::PickingScheme {
        target: t,
        screen: screens::ScreenView::PickScheme { items, selected, .. },
    } && t == target && 0 <= selected < items.len() && items[selected] == scheme
}

/// In a session with interaction and without a scheme on the command line, what is configured
/// is what the user took: the scheme that was selected when enter was pressed, of the target
/// whose schemes were on the screen then.
pub proof fn law_what_was_taken_is_configured(
    args: Args,
    events: Seq<session::EventView>,
    i: int,
) -> (taken: (int, targets::TargetView, Seq<char>))
    requires
        !args.non_interactive,
        args.scheme is None,
        can_happen(args@, events),
        0 <= i < events.len(),
        actions_after(args@, events)[i] matches session::ActionView::Run(call) && call.tool
            == Tool::BuildServer,
    ensures
        taken.0 < i,
        was_taken(args@, events, taken.0, taken.1, taken.2),
        actions_after(args@, events)[i] matches session::ActionView::Run(call) && {
            &&& names_scheme(call, taken.2)
            &&& match taken.1 {
                targets::TargetView::Workspace(path) => names_target(call, "-workspace"@, path),
                targets::TargetView::Project(path) => names_target(call, "-project"@, path),
            }
        },
    decreases events.len(),
{
    let before = events.drop_last();
    law_every_state_is_sound(args@, before);
    let was = actions_after(args@, before);
    let is = actions_after(args@, events);
    if i < before.len() {
        assert(is[i] == was[i]);
        let taken = law_what_was_taken_is_configured(args, before, i);
        assert(events.take(taken.0) == before.take(taken.0));
        taken
    } else {
        let state = state_after(args@, before);
        assert(state is ShowingConfig);
        let target = state->ShowingConfig_target;
        let scheme = state->ShowingConfig_scheme;
        let j = lemma_shown_was_taken(args, before);
        assert(events.take(j) == before.take(j));
        assert(is[i]->Run_0.arguments == commands::config_call(target, scheme).arguments);
        (j, target, scheme)
    }
}

proof fn lemma_shown_was_taken(args: Args, events: Seq<session::EventView>) -> (j: int)
    requires
        !args.non_interactive,
        args.scheme is None,
        can_happen(args@, events),
        state_after(args@, events) is ShowingConfig,
    ensures
        was_taken(
            args@,
            events,
            j,
            state_after(args@, events)->ShowingConfig_target,
            state_after(args@, events)->ShowingConfig_scheme,
        ),
{
    let before = events.drop_last();
    law_every_state_is_sound(args@, before);
    let j = events.len() - 1;
    assert(events.take(j) == before);
    assert(events[j] == events.last());
    j
}

} // verus!
