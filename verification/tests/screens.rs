use xcode_lsp_gen::layout::Area;
use xcode_lsp_gen::screens::{describe, draw, draw_in_rows, Body, Frame, Screen};
use xcode_lsp_gen::targets::XcodeTarget;

fn text(s: &str) -> String {
    s.to_string()
}

fn area(x: u16, y: u16, width: u16, height: u16) -> Area {
    Area { x, y, width, height }
}

fn rows() -> Vec<Area> {
    vec![area(0, 0, 80, 3), area(0, 3, 80, 19), area(0, 22, 80, 2)]
}

fn place(a: Area) -> (u16, u16, u16, u16) {
    (a.x, a.y, a.width, a.height)
}

fn check_rim(frame: &Frame, hint: &str) {
    let header = &frame.header;
    assert_eq!((header.title.as_str(), header.text.as_str()), ("Header", "XcodeLspGen"));
    assert_eq!((header.trim, header.scroll, place(header.area)), (true, 0, (0, 0, 80, 3)));
    let footer = &frame.footer;
    assert_eq!((footer.title.as_str(), footer.text.as_str()), ("Keys", hint));
    assert_eq!((footer.trim, footer.scroll, place(footer.area)), (true, 0, (0, 22, 80, 2)));
}

fn check_text(frame: &Frame, title: &str, body: &str, scroll: u16) {
    match &frame.body {
        Body::Text(panel) => {
            assert_eq!((panel.title.as_str(), panel.text.as_str()), (title, body));
            assert_eq!((panel.trim, panel.scroll, place(panel.area)), (false, scroll, (0, 3, 80, 19)));
        }
        Body::List(_) => panic!("a list"),
    }
}

fn check_list(frame: &Frame, title: &str, items: &[&str], selected: usize) {
    match &frame.body {
        Body::List(list) => {
            assert_eq!((list.title.as_str(), list.selected), (title, selected));
            assert_eq!(list.items, items);
            assert_eq!(place(list.area), (0, 3, 80, 19));
        }
        Body::Text(_) => panic!("a text"),
    }
}

#[test]
fn a_running_screen_shows_its_body() {
    let screen = Screen::Running { title: text("T"), body: text("B\n"), hint: text("H") };
    let frame = draw_in_rows(&screen, &rows());
    check_rim(&frame, "H");
    check_text(&frame, "T", "B\n", 0);
}

#[test]
fn targets_are_labelled_with_kind_and_path() {
    let screen = Screen::PickTarget {
        items: vec![
            XcodeTarget::Workspace(b"a/A.xcworkspace".to_vec()),
            XcodeTarget::Project(vec![b'p', 0xff]),
        ],
        selected: 1,
        hint: text("pick"),
    };
    let frame = draw_in_rows(&screen, &rows());
    check_rim(&frame, "pick");
    check_list(&frame, "Pick target", &["[workspace] a/A.xcworkspace", "[project] p\u{fffd}"], 1);
}

#[test]
fn schemes_are_listed_under_their_target() {
    let screen = Screen::PickScheme {
        target: XcodeTarget::Project(b"P.xcodeproj".to_vec()),
        items: vec![text("App"), text("Kit")],
        selected: 0,
        hint: text("pick"),
    };
    let frame = draw_in_rows(&screen, &rows());
    check_rim(&frame, "pick");
    check_list(&frame, "Pick scheme • project: P.xcodeproj", &["App", "Kit"], 0);
}

#[test]
fn final_screens_show_summary_and_details() {
    let done = Screen::Done { summary: text("ok"), details: text("a\nb"), scroll: 4, hint: text("bye") };
    let frame = draw_in_rows(&done, &rows());
    check_rim(&frame, "bye");
    check_text(&frame, "Done", "ok\n\na\nb", 4);
    let error = Screen::Error { summary: text("no"), details: text(""), scroll: 0, hint: text("bye") };
    let frame = draw_in_rows(&error, &rows());
    check_rim(&frame, "bye");
    check_text(&frame, "Error", "no\n\n", 0);
}

#[test]
fn the_rows_fill_the_terminal_from_the_top_down() {
    let screen = Screen::Running { title: text("T"), body: text("B"), hint: text("H") };
    for height in [5, 6, 24, 200] {
        let frame = draw(&screen, area(2, 1, 77, height));
        assert_eq!(place(frame.header.area), (2, 1, 77, 3));
        match &frame.body {
            Body::Text(panel) => assert_eq!(place(panel.area), (2, 4, 77, height - 5)),
            Body::List(_) => panic!("a list"),
        }
        assert_eq!(place(frame.footer.area), (2, 1 + height - 2, 77, 2));
    }
}

#[test]
fn rows_of_a_small_terminal_fill_it_in_order() {
    let screen = Screen::Running { title: text("T"), body: text("B"), hint: text("H") };
    for height in 0..5 {
        let frame = draw(&screen, area(1, 1, 9, height));
        let body = match &frame.body {
            Body::Text(panel) => panel.area,
            Body::List(_) => panic!("a list"),
        };
        let mut next = 1;
        for row in [frame.header.area, body, frame.footer.area] {
            assert_eq!((row.x, row.y, row.width), (1, next, 9));
            next += row.height;
        }
        assert_eq!(next, 1 + height);
        assert!(frame.header.area.height <= 3);
        assert_eq!(body.height, 0);
        assert!(frame.footer.area.height <= 2);
    }
}

#[test]
fn a_target_is_described_by_kind_and_path() {
    assert_eq!(describe(&XcodeTarget::Workspace(b"W".to_vec())), "workspace: W");
    assert_eq!(describe(&XcodeTarget::Project("é/日.xcodeproj".as_bytes().to_vec())), "project: é/日.xcodeproj");
    assert_eq!(describe(&XcodeTarget::Project(vec![0xf0, 0x9f])), "project: \u{fffd}");
}
