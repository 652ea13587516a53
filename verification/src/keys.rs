//! Keys and what they ask for.

use vstd::prelude::*;

verus! {

/// The keys that mean something here. Modifiers do not change which key it is.
#[derive(Clone, Copy, PartialEq, Eq, Structural)]
pub enum KeyCode {
    Enter,
    Up,
    Down,
    Esc,
    Char(char),
    /// Any other key.
    Other,
}

/// What happened to a key.
#[derive(Clone, Copy, PartialEq, Eq, Structural)]
pub enum KeyEventKind {
    Press,
    Repeat,
    Release,
}

/// A key, the modifiers held with it as a set of bits, and what happened to it.
#[derive(Clone, Copy, PartialEq, Eq, Structural)]
pub struct KeyEvent {
    pub code: KeyCode,
    pub modifiers: u8,
    pub kind: KeyEventKind,
}

/// What a look at the terminal gave.
#[derive(Clone, Copy, PartialEq, Eq, Structural)]
pub enum Input {
    /// Nothing in time, or something that is no key.
    Nothing,
    /// Something about a key.
    Key(KeyEvent),
}

/// The bit of the control key among the modifiers.
pub const CONTROL: u8 = 0b0000_0010;

/// `k` is the enter key.
pub open spec fn enter_key(k: KeyEvent) -> bool {
    k.code == KeyCode::Enter
}

/// `k` moves up.
pub open spec fn up_key(k: KeyEvent) -> bool {
    k.code == KeyCode::Up || k.code == KeyCode::Char('k')
}

/// `k` moves down.
pub open spec fn down_key(k: KeyEvent) -> bool {
    k.code == KeyCode::Down || k.code == KeyCode::Char('j')
}

/// `k` leaves: escape, a bare `q`, or `c` with the control key.
pub open spec fn quit_key(k: KeyEvent) -> bool {
    ||| k.code == KeyCode::Esc
    ||| k.code == KeyCode::Char('q') && k.modifiers == 0
    ||| k.code == KeyCode::Char('c') && k.modifiers & CONTROL == CONTROL
}

/// Calls `contains` of `crossterm::event::KeyModifiers` on the sets with the bits `held`
/// and `wanted`: whether every bit of `wanted` is in `held`.
#[verifier::external_body]
fn holds_all(held: u8, wanted: u8) -> (all: bool)
    ensures
        all == (held & wanted == wanted),
{
    crossterm::event::KeyModifiers::from_bits_retain(held).contains(
        crossterm::event::KeyModifiers::from_bits_retain(wanted),
    )
}

/// Calls `is_empty` of `crossterm::event::KeyModifiers` on the set with the bits `held`:
/// whether there is no bit in it.
#[verifier::external_body]
fn holds_none(held: u8) -> (none: bool)
    ensures
        none == (held == 0),
{
    crossterm::event::KeyModifiers::from_bits_retain(held).is_empty()
}

/// Whether `k` is the enter key.
pub fn is_enter(k: &KeyEvent) -> (is: bool)
    ensures
        is == enter_key(*k),
{
    matches!(k.code, KeyCode::Enter)
}

/// Whether `k` moves up.
pub fn is_up(k: &KeyEvent) -> (is: bool)
    ensures
        is == up_key(*k),
{
    matches!(k.code, KeyCode::Up) || matches!(k.code, KeyCode::Char('k'))
}

/// Whether `k` moves down.
pub fn is_down(k: &KeyEvent) -> (is: bool)
    ensures
        is == down_key(*k),
{
    matches!(k.code, KeyCode::Down) || matches!(k.code, KeyCode::Char('j'))
}

/// Whether `k` leaves.
pub fn is_quit(k: &KeyEvent) -> (is: bool)
    ensures
        is == quit_key(*k),
{
    matches!(k.code, KeyCode::Esc) || (matches!(k.code, KeyCode::Char('q')) && holds_none(
        k.modifiers,
    )) || (holds_all(k.modifiers, CONTROL) && matches!(k.code, KeyCode::Char('c')))
}

/// No key asks for two things.
pub proof fn law_keys_ask_for_one_thing(k: KeyEvent)
    ensures
        quit_key(k) ==> !enter_key(k) && !up_key(k) && !down_key(k),
        enter_key(k) ==> !up_key(k) && !down_key(k),
        up_key(k) ==> !down_key(k),
{
}

/// `input` is the press of the enter key, whatever is held with it.
pub open spec fn takes(input: Input) -> bool {
    input matches Input::Key(k) && k.kind == KeyEventKind::Press && k.code == KeyCode::Enter
}

/// `input` is the press of a key that leaves: escape, a `q` with nothing held, or a `c` with
/// the control key held, whose bit among the modifiers is the second.
pub open spec fn quits(input: Input) -> bool {
    input matches Input::Key(k) && k.kind == KeyEventKind::Press && {
        ||| k.code == KeyCode::Esc
        ||| k.code == KeyCode::Char('q') && k.modifiers == 0
        ||| k.code == KeyCode::Char('c') && k.modifiers & 2 == 2
    }
}

/// `input` is the press of the key with the arrow up, or of `k`.
pub open spec fn goes_up(input: Input) -> bool {
    input matches Input::Key(k) && k.kind == KeyEventKind::Press && (k.code == KeyCode::Up
        || k.code == KeyCode::Char('k'))
}

/// `input` is the press of the key with the arrow down, or of `j`.
pub open spec fn goes_down(input: Input) -> bool {
    input matches Input::Key(k) && k.kind == KeyEventKind::Press && (k.code == KeyCode::Down
        || k.code == KeyCode::Char('j'))
}

/// Which keys enter, move and leave: of all keys just these, and no modifier matters but
/// to `q` and `c`.
pub proof fn law_which_keys_count(k: &KeyEvent, enter: bool, up: bool, down: bool, quit: bool)
    requires
        call_ensures(is_enter, (k,), enter),
        call_ensures(is_up, (k,), up),
        call_ensures(is_down, (k,), down),
        call_ensures(is_quit, (k,), quit),
    ensures
        match k.code {
            KeyCode::Enter => enter && !up && !down && !quit,
            KeyCode::Up => !enter && up && !down && !quit,
            KeyCode::Down => !enter && !up && down && !quit,
            KeyCode::Esc => !enter && !up && !down && quit,
            KeyCode::Char(c) => {
                &&& !enter
                &&& up <==> c == 'k'
                &&& down <==> c == 'j'
                &&& quit <==> (c == 'q' && k.modifiers == 0 || c == 'c' && k.modifiers & 2 == 2)
            },
            KeyCode::Other => !enter && !up && !down && !quit,
        },
{
}

} // verus!
