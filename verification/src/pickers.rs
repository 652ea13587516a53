//! The screens that wait for keys: one step of each for one look at the terminal.

use crate::failures;
use crate::failures::Failure;
use crate::keys;
use crate::keys::Input;
use crate::keys::KeyEvent;
use crate::keys::KeyEventKind;
use crate::layout::Area;
use crate::schemes;
use crate::screens;
use crate::screens::Body;
use crate::screens::Frame;
use crate::screens::Screen;
use crate::targets;
use crate::targets::XcodeTarget;
use vstd::prelude::*;

verus! {

/// The key that was pressed, if one was. Repeats and releases do not count.
pub open spec fn pressed(input: Input) -> Option<KeyEvent> {
    match input {
        Input::Key(k) => if k.kind == KeyEventKind::Press {
            Some(k)
        } else {
            None
        },
        Input::Nothing => None,
    }
}

/// What a picker does next.
#[derive(Clone, Copy)]
pub enum Pick {
    /// Waits on, with this item selected.
    Select(usize),
    /// Takes the selected item.
    Take,
    /// Gives up.
    Leave,
}

/// What a picker does next, as a value.
pub enum PickView {
    Select(int),
    Take,
    Leave,
}

impl View for Pick {
    type V = PickView;

    open spec fn view(&self) -> PickView {
        match *self {
            Pick::Select(selected) => PickView::Select(selected as int),
            Pick::Take => PickView::Take,
            Pick::Leave => PickView::Leave,
        }
    }
}

/// What a picker with `count` items does with `input`: the selection moves by one and
/// stops at either end.
pub open spec fn picked(selected: int, count: int, input: Input) -> PickView {
    match pressed(input) {
        None => PickView::Select(selected),
        Some(k) => if keys::quit_key(k) {
            PickView::Leave
        } else if keys::up_key(k) {
            PickView::Select(
                if selected > 0 {
                    selected - 1
                } else {
                    0
                },
            )
        } else if keys::down_key(k) {
            PickView::Select(
                if selected < count - 1 {
                    selected + 1
                } else {
                    count - 1
                },
            )
        } else if keys::enter_key(k) {
            PickView::Take
        } else {
            PickView::Select(selected)
        },
    }
}

/// The key that was pressed, if one was.
fn press(input: Input) -> (key: Option<KeyEvent>)
    ensures
        key == pressed(input),
{
    match input {
        Input::Key(k) => {
            if matches!(k.kind, KeyEventKind::Press) {
                Some(k)
            } else {
                None
            }
        },
        Input::Nothing => None,
    }
}

/// What a picker with `count` items does with `input`.
pub fn pick(selected: usize, count: usize, input: Input) -> (next: Pick)
    requires
        selected < count,
    ensures
        next@ == picked(selected as int, count as int, input),
{
    match press(input) {
        None => Pick::Select(selected),
        Some(k) => {
            if keys::is_quit(&k) {
                Pick::Leave
            } else if keys::is_up(&k) {
                Pick::Select(
                    if selected > 0 {
                        selected - 1
                    } else {
                        0
                    },
                )
            } else if keys::is_down(&k) {
                Pick::Select(
                    if selected + 1 < count {
                        selected + 1
                    } else {
                        count - 1
                    },
                )
            } else if keys::is_enter(&k) {
                Pick::Take
            } else {
                Pick::Select(selected)
            }
        },
    }
}

/// A list of targets with one of them selected.
pub open spec fn picks_target(screen: screens::ScreenView) -> bool {
    match screen {
        screens::ScreenView::PickTarget { items, selected, .. } => 0 <= selected < items.len(),
        _ => false,
    }
}

/// A list of schemes with one of them selected.
pub open spec fn picks_scheme(screen: screens::ScreenView) -> bool {
    match screen {
        screens::ScreenView::PickScheme { items, selected, .. } => 0 <= selected < items.len(),
        _ => false,
    }
}

/// One step of picking a target: the screen after it, and what was picked once it is over.
pub open spec fn target_step(screen: screens::ScreenView, input: Input) -> (
    screens::ScreenView,
    Option<Result<targets::TargetView, failures::FailureView>>,
) {
    match screen {
        screens::ScreenView::PickTarget { items, selected, hint } => match picked(
            selected,
            items.len() as int,
            input,
        ) {
            PickView::Select(next) => (
                screens::ScreenView::PickTarget { items, selected: next, hint },
                None,
            ),
            PickView::Take => (screen, Some(Ok(items[selected]))),
            PickView::Leave => (screen, Some(Err(failures::FailureView::Cancelled))),
        },
        _ => (screen, None),
    }
}

/// One step of picking a scheme: the screen after it, and what was picked once it is over.
pub open spec fn scheme_step(screen: screens::ScreenView, input: Input) -> (
    screens::ScreenView,
    Option<Result<Seq<char>, failures::FailureView>>,
) {
    match screen {
        screens::ScreenView::PickScheme { target, items, selected, hint } => match picked(
            selected,
            items.len() as int,
            input,
        ) {
            PickView::Select(next) => (
                screens::ScreenView::PickScheme { target, items, selected: next, hint },
                None,
            ),
            PickView::Take => (screen, Some(Ok(items[selected]))),
            PickView::Leave => (screen, Some(Err(failures::FailureView::Cancelled))),
        },
        _ => (screen, None),
    }
}

/// The value of a picked target.
pub open spec fn picked_target(
    choice: Option<Result<XcodeTarget, Failure>>,
) -> Option<Result<targets::TargetView, failures::FailureView>> {
    match choice {
        None => None,
        Some(Ok(target)) => Some(Ok(target@)),
        Some(Err(failure)) => Some(Err(failure@)),
    }
}

/// The value of a picked scheme.
pub open spec fn picked_scheme(
    choice: Option<Result<String, Failure>>,
) -> Option<Result<Seq<char>, failures::FailureView>> {
    match choice {
        None => None,
        Some(Ok(scheme)) => Some(Ok(scheme@)),
        Some(Err(failure)) => Some(Err(failure@)),
    }
}

/// One step of picking a target. Once a target is taken, or the user leaves, it says so.
pub fn pick_target_screen(screen: &mut Screen, input: Input) -> (choice: Option<
    Result<XcodeTarget, Failure>,
>)
    requires
        picks_target(old(screen)@),
    ensures
        final(screen)@ == target_step(old(screen)@, input).0,
        picked_target(choice) == target_step(old(screen)@, input).1,
{
    match screen {
        Screen::PickTarget { items, selected, .. } => {
            match pick(*selected, items.len(), input) {
                Pick::Select(next) => {
                    *selected = next;
                    None
                },
                Pick::Take => Some(Ok(items[*selected].clone())),
                Pick::Leave => Some(Err(Failure::Cancelled)),
            }
        },
        _ => None,
    }
}

/// One step of picking a scheme. Once a scheme is taken, or the user leaves, it says so.
pub fn pick_scheme_screen(screen: &mut Screen, input: Input) -> (choice: Option<
    Result<String, Failure>,
>)
    requires
        picks_scheme(old(screen)@),
    ensures
        final(screen)@ == scheme_step(old(screen)@, input).0,
        picked_scheme(choice) == scheme_step(old(screen)@, input).1,
{
    match screen {
        Screen::PickScheme { items, selected, .. } => {
            match pick(*selected, items.len(), input) {
                Pick::Select(next) => {
                    *selected = next;
                    None
                },
                Pick::Take => Some(Ok(items[*selected].clone())),
                Pick::Leave => Some(Err(Failure::Cancelled)),
            }
        },
        _ => None,
    }
}

/// A number of 16 bits read with a sign.
pub open spec fn signed(n: int) -> int {
    if n > i16::MAX {
        n - 0x1_0000
    } else {
        n
    }
}

/// How far a text is scrolled after `delta` more lines. It stops at the top and at the last
/// line that a signed number of 16 bits can count.
pub open spec fn scrolled(scroll: int, delta: int) -> int {
    let moved = signed(scroll) + delta;
    if delta == 0 {
        scroll
    } else if moved < 0 {
        0
    } else if moved > i16::MAX {
        i16::MAX as int
    } else {
        moved
    }
}

/// How many lines a key scrolls.
pub open spec fn lines_of_key(k: KeyEvent) -> int {
    if keys::up_key(k) {
        -1
    } else if keys::down_key(k) {
        1
    } else {
        0
    }
}

/// The screen with its text scrolled by `delta` lines.
pub open spec fn scrolled_screen(screen: screens::ScreenView, delta: int) -> screens::ScreenView {
    match screen {
        screens::ScreenView::Done { summary, details, scroll, hint } => screens::ScreenView::Done {
            summary,
            details,
            scroll: scrolled(scroll, delta),
            hint,
        },
        screens::ScreenView::Error {
            summary,
            details,
            scroll,
            hint,
        } => screens::ScreenView::Error {
            summary,
            details,
            scroll: scrolled(scroll, delta),
            hint,
        },
        _ => screen,
    }
}

/// One step of a final screen: the screen after it, and whether the user is done with it.
pub open spec fn finish_step(screen: screens::ScreenView, input: Input) -> (
    screens::ScreenView,
    bool,
) {
    match pressed(input) {
        None => (screen, false),
        Some(k) => if keys::enter_key(k) || keys::quit_key(k) {
            (screen, true)
        } else {
            (scrolled_screen(screen, lines_of_key(k)), false)
        },
    }
}

/// How far a text is scrolled after `delta` more lines.
pub fn scroll_by(scroll: u16, delta: i16) -> (next: u16)
    requires
        -1 <= delta <= 1,
    ensures
        next == scrolled(scroll as int, delta as int),
{
    if delta == 0 {
        return scroll;
    }
    let line: i16 = scroll as i16;
    proof {
        if scroll <= 0x7fff {
            assert((scroll as i16) == scroll) by (bit_vector)
                requires
                    scroll <= 0x7fff,
            ;
        } else {
            assert((scroll as i16) == scroll - 0x1_0000) by (bit_vector)
                requires
                    scroll > 0x7fff,
            ;
        }
    }
    if delta < 0 {
        if line <= 0 {
            0
        } else {
            (line - 1) as u16
        }
    } else if line < 0 {
        0
    } else if line == i16::MAX {
        scroll
    } else {
        (line + 1) as u16
    }
}

/// One step of a final screen: its text scrolls, until the user is done with it.
pub fn finish_screen(screen: &mut Screen, input: Input) -> (done: bool)
    ensures
        final(screen)@ == finish_step(old(screen)@, input).0,
        done == finish_step(old(screen)@, input).1,
{
    match press(input) {
        None => false,
        Some(k) => {
            if keys::is_enter(&k) || keys::is_quit(&k) {
                return true;
            }
            let delta: i16 = if keys::is_up(&k) {
                -1
            } else if keys::is_down(&k) {
                1
            } else {
                0
            };
            match screen {
                Screen::Done { scroll, .. } => {
                    *scroll = scroll_by(*scroll, delta);
                },
                Screen::Error { scroll, .. } => {
                    *scroll = scroll_by(*scroll, delta);
                },
                _ => {},
            }
            false
        },
    }
}


/// The selection never leaves the list.
pub proof fn law_selection_stays_in_list(selected: int, count: int, input: Input)
    requires
        0 <= selected < count,
    ensures
        picked(selected, count, input) matches PickView::Select(next) ==> 0 <= next < count,
{
}

/// Away from the ends of the list, up takes back down and down takes back up.
pub proof fn law_up_and_down_undo(selected: int, count: int, up: KeyEvent, down: KeyEvent)
    requires
        0 <= selected < count,
        keys::up_key(up) && up.kind == KeyEventKind::Press,
        keys::down_key(down) && down.kind == KeyEventKind::Press,
    ensures
        selected < count - 1 ==> picked(selected, count, Input::Key(down)) == PickView::Select(
            selected + 1,
        ) && picked(selected + 1, count, Input::Key(up)) == PickView::Select(selected),
        selected > 0 ==> picked(selected, count, Input::Key(up)) == PickView::Select(selected - 1)
            && picked(selected - 1, count, Input::Key(down)) == PickView::Select(selected),
{
    keys::law_keys_ask_for_one_thing(up);
    keys::law_keys_ask_for_one_thing(down);
}

/// What is not the press of a key changes nothing and ends nothing.
pub proof fn law_only_presses_count(screen: screens::ScreenView, input: Input)
    requires
        pressed(input) is None,
    ensures
        target_step(screen, input) == (
            screen,
            None::<Result<targets::TargetView, failures::FailureView>>,
        ),
        scheme_step(screen, input) == (screen, None::<Result<Seq<char>, failures::FailureView>>),
        finish_step(screen, input) == (screen, false),
{
}

/// Scrolling from a line that a signed number of 16 bits can count leads to such a line,
/// by at most one line in the direction asked for; and away from the ends, up takes back
/// down and down takes back up.
pub proof fn law_scroll_stays_countable(scroll: int)
    requires
        0 <= scroll <= i16::MAX,
    ensures
        scrolled(scroll, 0) == scroll,
        scroll < i16::MAX ==> scrolled(scroll, 1) == scroll + 1 && scrolled(scroll + 1, -1)
            == scroll,
        scroll > 0 ==> scrolled(scroll, -1) == scroll - 1 && scrolled(scroll - 1, 1) == scroll,
        scrolled(0, -1) == 0,
        scrolled(i16::MAX as int, 1) == i16::MAX,
{
}

/// Which item is selected after `input` has come `times` times.
pub open spec fn selected_after(selected: int, count: int, input: Input, times: nat) -> int
    decreases times,
{
    if times == 0 {
        selected
    } else {
        match picked(selected_after(selected, count, input, (times - 1) as nat), count, input) {
            PickView::Select(next) => next,
            _ => selected_after(selected, count, input, (times - 1) as nat),
        }
    }
}

/// Every item can be picked: from the first one, as many presses of a key that moves down
/// as the item's index select it, and enter takes it.
pub proof fn law_every_item_can_be_picked(
    items: Seq<targets::TargetView>,
    names: Seq<Seq<char>>,
    target: targets::TargetView,
    hint: Seq<char>,
    down: KeyEvent,
    enter: KeyEvent,
    index: nat,
)
    requires
        keys::down_key(down) && down.kind == KeyEventKind::Press,
        keys::enter_key(enter) && enter.kind == KeyEventKind::Press,
    ensures
        index < items.len() ==> target_step(
            screens::ScreenView::PickTarget {
                items,
                selected: selected_after(0, items.len() as int, Input::Key(down), index),
                hint,
            },
            Input::Key(enter),
        ).1 == Some(Ok::<_, failures::FailureView>(items[index as int])),
        index < names.len() ==> scheme_step(
            screens::ScreenView::PickScheme {
                target,
                items: names,
                selected: selected_after(0, names.len() as int, Input::Key(down), index),
                hint,
            },
            Input::Key(enter),
        ).1 == Some(Ok::<_, failures::FailureView>(names[index as int])),
{
    keys::law_keys_ask_for_one_thing(down);
    keys::law_keys_ask_for_one_thing(enter);
    if index < items.len() {
        lemma_selected_after(items.len() as int, down, index);
    }
    if index < names.len() {
        lemma_selected_after(names.len() as int, down, index);
    }
}

proof fn lemma_selected_after(count: int, down: KeyEvent, times: nat)
    requires
        keys::down_key(down) && down.kind == KeyEventKind::Press,
        times < count,
    ensures
        selected_after(0, count, Input::Key(down), times) == times,
    decreases times,
{
    keys::law_keys_ask_for_one_thing(down);
    if times > 0 {
        lemma_selected_after(count, down, (times - 1) as nat);
    }
}

/// Where the selection among `count` items is after `input`: one item on in the direction
/// that is asked for, unless it is at that end already.
pub open spec fn moved(selected: int, count: int, input: Input) -> int {
    if keys::goes_up(input) && selected > 0 {
        selected - 1
    } else if keys::goes_down(input) && selected < count - 1 {
        selected + 1
    } else {
        selected
    }
}

/// Wherever the selection is, a picker is left exactly on the press of a key that leaves,
/// takes exactly on the press of enter, and on anything else goes on with the selection
/// moved by at most the one item asked for.
pub proof fn law_pick_does_what_is_asked(selected: usize, count: usize, input: Input, next: Pick)
    requires
        selected < count,
        call_ensures(pick, (selected, count, input), next),
    ensures
        next is Leave <==> keys::quits(input),
        next is Take <==> keys::takes(input),
        next matches Pick::Select(at) ==> at == moved(selected as int, count as int, input),
{
}

/// Enter takes the target that is selected, and a key that leaves cancels, whatever is
/// selected. On anything else nothing is picked. The list stays as it is, and the
/// selection moves as asked for.
pub proof fn law_target_picker(
    items: Vec<XcodeTarget>,
    selected: usize,
    hint: String,
    input: Input,
    after: Screen,
    choice: Option<Result<XcodeTarget, Failure>>,
)
    requires
        selected < items@.len(),
        after@ == target_step((Screen::PickTarget { items, selected, hint })@, input).0,
        picked_target(choice) == target_step(
            (Screen::PickTarget { items, selected, hint })@,
            input,
        ).1,
    ensures
        keys::takes(input) ==> (choice matches Some(Ok(taken)) && targets::same_target(
            taken,
            items@[selected as int],
        )),
        keys::quits(input) ==> (choice matches Some(Err(failure)) && failure is Cancelled),
        !keys::takes(input) && !keys::quits(input) ==> choice is None,
        after matches Screen::PickTarget { items: left, selected: at, hint: told } && {
            &&& targets::same_targets(left@, items@)
            &&& at == moved(selected as int, items@.len() as int, input)
            &&& told@ == hint@
        },
{
    let was = targets::target_views(items@);
    assert(was[selected as int] == items@[selected as int]@);
    if let Screen::PickTarget { items: left, .. } = after {
        let is = targets::target_views(left@);
        assert(is == was);
        assert forall|i: int| 0 <= i < items@.len() implies targets::same_target(
            #[trigger] left@[i],
            items@[i],
        ) by {
            assert(is[i] == left@[i]@ && was[i] == items@[i]@);
        }
    }
}

/// Enter takes the scheme that is selected, and a key that leaves cancels, whatever is
/// selected. On anything else nothing is picked. The target and the list stay as they are,
/// and the selection moves as asked for.
pub proof fn law_scheme_picker(
    target: XcodeTarget,
    items: Vec<String>,
    selected: usize,
    hint: String,
    input: Input,
    after: Screen,
    choice: Option<Result<String, Failure>>,
)
    requires
        selected < items@.len(),
        after@ == scheme_step((Screen::PickScheme { target, items, selected, hint })@, input).0,
        picked_scheme(choice) == scheme_step(
            (Screen::PickScheme { target, items, selected, hint })@,
            input,
        ).1,
    ensures
        keys::takes(input) ==> (choice matches Some(Ok(taken)) && taken@
            == items@[selected as int]@),
        keys::quits(input) ==> (choice matches Some(Err(failure)) && failure is Cancelled),
        !keys::takes(input) && !keys::quits(input) ==> choice is None,
        after matches Screen::PickScheme { target: of, items: left, selected: at, hint: told } && {
            &&& targets::same_target(of, target)
            &&& schemes::same_texts(left@, items@)
            &&& at == moved(selected as int, items@.len() as int, input)
            &&& told@ == hint@
        },
{
    let was = schemes::texts(items@);
    assert(was[selected as int] == items@[selected as int]@);
    if let Screen::PickScheme { items: left, .. } = after {
        let is = schemes::texts(left@);
        assert(is == was);
        assert forall|i: int| 0 <= i < items@.len() implies (#[trigger] left@[i])@
            == items@[i]@ by {
            assert(is[i] == left@[i]@ && was[i] == items@[i]@);
        }
    }
}

/// How far a text scrolled by `scroll` lines is scrolled after `input`: one line on in the
/// direction that is asked for, but never above the top, nor past the last line that
/// counts.
pub open spec fn rolled(scroll: int, input: Input) -> int {
    if keys::goes_up(input) && scroll > 0 {
        scroll - 1
    } else if keys::goes_down(input) && scroll < 32767 {
        scroll + 1
    } else {
        scroll
    }
}

/// A final screen is done with exactly on the press of enter or of a key that leaves.
/// Until then its text rolls as asked for, and nothing else of it changes.
pub proof fn law_final_screen(before: Screen, input: Input, after: Screen, done: bool)
    requires
        after@ == finish_step(before@, input).0,
        done == finish_step(before@, input).1,
    ensures
        done <==> keys::takes(input) || keys::quits(input),
        match before {
            Screen::Done { summary, details, scroll, hint } => {
                after matches Screen::Done { summary: s, details: d, scroll: at, hint: h } && {
                    &&& s@ == summary@ && d@ == details@ && h@ == hint@
                    &&& scroll <= 32767 ==> at == rolled(scroll as int, input)
                    &&& !keys::goes_up(input) && !keys::goes_down(input) ==> at == scroll
                }
            },
            Screen::Error { summary, details, scroll, hint } => {
                after matches Screen::Error { summary: s, details: d, scroll: at, hint: h } && {
                    &&& s@ == summary@ && d@ == details@ && h@ == hint@
                    &&& scroll <= 32767 ==> at == rolled(scroll as int, input)
                    &&& !keys::goes_up(input) && !keys::goes_down(input) ==> at == scroll
                }
            },
            _ => after@ == before@,
        },
{
}

/// The highlighted line is that of the item that enter takes: in the list of targets and in
/// the list of schemes, wherever the selection is.
pub proof fn law_enter_takes_what_is_highlighted(
    targets_listed: Vec<XcodeTarget>,
    target: XcodeTarget,
    names: Vec<String>,
    selected: usize,
    hint: String,
    area: Area,
    input: Input,
    target_frame: Frame,
    target_choice: Option<Result<XcodeTarget, Failure>>,
    scheme_frame: Frame,
    scheme_choice: Option<Result<String, Failure>>,
)
    requires
        keys::takes(input),
        selected < targets_listed@.len(),
        selected < names@.len(),
        call_ensures(
            screens::draw,
            (&Screen::PickTarget { items: targets_listed, selected, hint }, area),
            target_frame,
        ),
        picked_target(target_choice) == target_step(
            (Screen::PickTarget { items: targets_listed, selected, hint })@,
            input,
        ).1,
        call_ensures(
            screens::draw,
            (&Screen::PickScheme { target, items: names, selected, hint }, area),
            scheme_frame,
        ),
        picked_scheme(scheme_choice) == scheme_step(
            (Screen::PickScheme { target, items: names, selected, hint })@,
            input,
        ).1,
    ensures
        target_choice matches Some(Ok(taken)) && target_frame.body matches Body::List(list) && {
            &&& list.selected < list.items@.len()
            &&& list.items@[list.selected as int]@ == screens::lined(taken)
        },
        scheme_choice matches Some(Ok(taken)) && scheme_frame.body matches Body::List(list) && {
            &&& list.selected < list.items@.len()
            &&& list.items@[list.selected as int]@ == taken@
        },
{
    let of_targets = Screen::PickTarget { items: targets_listed, selected, hint };
    let of_schemes = Screen::PickScheme { target, items: names, selected, hint };
    screens::law_drawing_shows_screen(&of_targets, area, target_frame);
    screens::law_drawing_shows_screen(&of_schemes, area, scheme_frame);
    assert(targets::target_views(targets_listed@)[selected as int]
        == targets_listed@[selected as int]@);
    assert(schemes::texts(names@)[selected as int] == names@[selected as int]@);
    assert(targets::same_target(target_choice->0->Ok_0, targets_listed@[selected as int]));
}

} // verus!
