use crossterm::event::KeyModifiers;
use xcode_lsp_gen::keys::{is_down, is_enter, is_quit, is_up, KeyCode, KeyEvent, KeyEventKind, CONTROL};

fn key(code: KeyCode, modifiers: KeyModifiers) -> KeyEvent {
    KeyEvent { code, modifiers: modifiers.bits(), kind: KeyEventKind::Press }
}

#[test]
fn the_control_bit_is_that_of_the_terminal_library() {
    assert_eq!(CONTROL, KeyModifiers::CONTROL.bits());
}

#[test]
fn enter_up_and_down() {
    let none = KeyModifiers::NONE;
    assert!(is_enter(&key(KeyCode::Enter, none)));
    assert!(!is_enter(&key(KeyCode::Char('\n'), none)));
    assert!(is_up(&key(KeyCode::Up, none)));
    assert!(is_up(&key(KeyCode::Char('k'), KeyModifiers::ALT)));
    assert!(!is_up(&key(KeyCode::Char('K'), none)));
    assert!(is_down(&key(KeyCode::Down, none)));
    assert!(is_down(&key(KeyCode::Char('j'), none)));
    assert!(!is_down(&key(KeyCode::Other, none)));
}

#[test]
fn quitting() {
    let none = KeyModifiers::NONE;
    assert!(is_quit(&key(KeyCode::Esc, none)));
    assert!(is_quit(&key(KeyCode::Esc, KeyModifiers::SHIFT)));
    assert!(is_quit(&key(KeyCode::Char('q'), none)));
    assert!(!is_quit(&key(KeyCode::Char('q'), KeyModifiers::SHIFT)));
    assert!(!is_quit(&key(KeyCode::Char('q'), KeyModifiers::CONTROL)));
    assert!(is_quit(&key(KeyCode::Char('c'), KeyModifiers::CONTROL)));
    assert!(is_quit(&key(KeyCode::Char('c'), KeyModifiers::CONTROL | KeyModifiers::ALT)));
    assert!(!is_quit(&key(KeyCode::Char('c'), KeyModifiers::ALT)));
    assert!(!is_quit(&key(KeyCode::Char('c'), none)));
    assert!(!is_quit(&key(KeyCode::Char('C'), KeyModifiers::CONTROL)));
}

#[test]
fn modifier_sets_of_any_bits_are_understood() {
    for bits in 0..=255u8 {
        let q = KeyEvent { code: KeyCode::Char('q'), modifiers: bits, kind: KeyEventKind::Press };
        let c = KeyEvent { code: KeyCode::Char('c'), modifiers: bits, kind: KeyEventKind::Press };
        assert_eq!(is_quit(&q), bits == 0);
        assert_eq!(is_quit(&c), bits & 2 != 0);
    }
}

#[test]
fn no_key_asks_for_two_things() {
    let codes = [
        KeyCode::Enter,
        KeyCode::Up,
        KeyCode::Down,
        KeyCode::Esc,
        KeyCode::Other,
        KeyCode::Char('q'),
        KeyCode::Char('c'),
        KeyCode::Char('j'),
        KeyCode::Char('k'),
    ];
    for code in codes {
        for bits in 0..64u8 {
            let k = KeyEvent { code, modifiers: bits, kind: KeyEventKind::Press };
            let asked = [is_enter(&k), is_up(&k), is_down(&k), is_quit(&k)];
            assert!(asked.iter().filter(|a| **a).count() <= 1);
        }
    }
}
