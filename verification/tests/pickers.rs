use xcode_lsp_gen::failures::Failure;
use xcode_lsp_gen::keys::{Input, KeyCode, KeyEvent, KeyEventKind};
use xcode_lsp_gen::pickers::{finish_screen, pick_scheme_screen, pick_target_screen, scroll_by};
use xcode_lsp_gen::screens::Screen;
use xcode_lsp_gen::targets::XcodeTarget;

fn press(code: KeyCode) -> Input {
    Input::Key(KeyEvent { code, modifiers: 0, kind: KeyEventKind::Press })
}

fn other(code: KeyCode, kind: KeyEventKind) -> Input {
    Input::Key(KeyEvent { code, modifiers: 0, kind })
}

fn targets() -> Screen {
    Screen::PickTarget {
        items: vec![
            XcodeTarget::Workspace(b"a".to_vec()),
            XcodeTarget::Project(b"b".to_vec()),
            XcodeTarget::Project(b"c".to_vec()),
        ],
        selected: 0,
        hint: "h".to_string(),
    }
}

fn schemes() -> Screen {
    Screen::PickScheme {
        target: XcodeTarget::Project(b"p".to_vec()),
        items: vec!["x".to_string(), "y".to_string()],
        selected: 0,
        hint: "h".to_string(),
    }
}

fn selected(screen: &Screen) -> usize {
    match screen {
        Screen::PickTarget { selected, .. } => *selected,
        Screen::PickScheme { selected, .. } => *selected,
        _ => panic!("no list"),
    }
}

fn done(scroll: u16) -> Screen {
    Screen::Done {
        summary: "s".to_string(),
        details: "d".to_string(),
        scroll,
        hint: "h".to_string(),
    }
}

fn error(scroll: u16) -> Screen {
    Screen::Error {
        summary: "s".to_string(),
        details: "d".to_string(),
        scroll,
        hint: "h".to_string(),
    }
}

fn line(screen: &Screen) -> u16 {
    match screen {
        Screen::Done { scroll, .. } => *scroll,
        Screen::Error { scroll, .. } => *scroll,
        _ => panic!("no text"),
    }
}

#[test]
fn the_selection_moves_and_stops_at_both_ends() {
    let mut screen = targets();
    for (code, expected) in [
        (KeyCode::Up, 0),
        (KeyCode::Down, 1),
        (KeyCode::Char('j'), 2),
        (KeyCode::Down, 2),
        (KeyCode::Char('k'), 1),
        (KeyCode::Up, 0),
        (KeyCode::Char('x'), 0),
    ] {
        assert!(pick_target_screen(&mut screen, press(code)).is_none());
        assert_eq!(selected(&screen), expected);
    }
}

#[test]
fn enter_takes_the_selected_target() {
    let mut screen = targets();
    assert!(pick_target_screen(&mut screen, press(KeyCode::Down)).is_none());
    match pick_target_screen(&mut screen, press(KeyCode::Enter)) {
        Some(Ok(XcodeTarget::Project(path))) => assert_eq!(path, b"b"),
        _ => panic!("not that target"),
    }
    assert_eq!(selected(&screen), 1);
}

#[test]
fn enter_takes_the_selected_scheme() {
    let mut screen = schemes();
    assert!(pick_scheme_screen(&mut screen, press(KeyCode::Char('j'))).is_none());
    assert!(pick_scheme_screen(&mut screen, press(KeyCode::Char('j'))).is_none());
    assert_eq!(selected(&screen), 1);
    assert!(matches!(pick_scheme_screen(&mut screen, press(KeyCode::Enter)), Some(Ok(s)) if s == "y"));
}

#[test]
fn quitting_cancels() {
    for code in [KeyCode::Esc, KeyCode::Char('q')] {
        assert!(matches!(pick_target_screen(&mut targets(), press(code)), Some(Err(Failure::Cancelled))));
        assert!(matches!(pick_scheme_screen(&mut schemes(), press(code)), Some(Err(Failure::Cancelled))));
    }
}

#[test]
fn only_presses_count() {
    for input in [
        Input::Nothing,
        other(KeyCode::Enter, KeyEventKind::Release),
        other(KeyCode::Esc, KeyEventKind::Repeat),
        other(KeyCode::Down, KeyEventKind::Repeat),
    ] {
        let mut screen = targets();
        assert!(pick_target_screen(&mut screen, input).is_none());
        assert_eq!(selected(&screen), 0);
        let mut screen = schemes();
        assert!(pick_scheme_screen(&mut screen, input).is_none());
        assert_eq!(selected(&screen), 0);
        let mut screen = done(3);
        assert!(!finish_screen(&mut screen, input));
        assert_eq!(line(&screen), 3);
    }
}

#[test]
fn final_screens_scroll() {
    for mut screen in [done(0), error(0)] {
        for (code, expected) in [
            (KeyCode::Up, 0),
            (KeyCode::Down, 1),
            (KeyCode::Char('j'), 2),
            (KeyCode::Char('k'), 1),
            (KeyCode::Other, 1),
        ] {
            assert!(!finish_screen(&mut screen, press(code)));
            assert_eq!(line(&screen), expected);
        }
    }
}

#[test]
fn final_screens_end_on_enter_and_quit() {
    for code in [KeyCode::Enter, KeyCode::Esc, KeyCode::Char('q')] {
        let mut screen = error(7);
        assert!(finish_screen(&mut screen, press(code)));
        assert_eq!(line(&screen), 7);
    }
}

#[test]
fn other_screens_do_not_scroll_but_end() {
    let mut screen = targets();
    assert!(!finish_screen(&mut screen, press(KeyCode::Down)));
    assert_eq!(selected(&screen), 0);
    assert!(finish_screen(&mut screen, press(KeyCode::Enter)));
}

#[test]
fn scrolling_stops_at_the_last_countable_line() {
    assert_eq!(scroll_by(0, -1), 0);
    assert_eq!(scroll_by(9, 0), 9);
    assert_eq!(scroll_by(32766, 1), 32767);
    assert_eq!(scroll_by(32767, 1), 32767);
    assert_eq!(scroll_by(32767, -1), 32766);
    for scroll in 0..=u16::MAX {
        for delta in [-1i16, 1] {
            let expected = (scroll as i16).saturating_add(delta).max(0) as u16;
            assert_eq!(scroll_by(scroll, delta), expected);
        }
    }
}

#[test]
fn every_item_can_be_picked() {
    let paths = [b"a".to_vec(), b"b".to_vec(), b"c".to_vec()];
    for (index, path) in paths.iter().enumerate() {
        let mut screen = targets();
        for _ in 0..index {
            assert!(pick_target_screen(&mut screen, press(KeyCode::Char('j'))).is_none());
        }
        match pick_target_screen(&mut screen, press(KeyCode::Enter)) {
            Some(Ok(target)) => assert_eq!(target.path(), path),
            _ => panic!("nothing picked"),
        }
    }
}
