//! What is on the screen.

use crate::layout;
use crate::layout::Area;
use crate::schemes;
use crate::targets;
use crate::targets::XcodeTarget;
use crate::text;
use vstd::prelude::*;
use vstd::string::*;

verus! {

/// Everything that can be on the screen.
pub enum Screen {
    /// Work is under way.
    Running { title: String, body: String, hint: String },
    /// A target is to be picked.
    PickTarget { items: Vec<XcodeTarget>, selected: usize, hint: String },
    /// A scheme of `target` is to be picked.
    PickScheme { target: XcodeTarget, items: Vec<String>, selected: usize, hint: String },
    /// It worked.
    Done { summary: String, details: String, scroll: u16, hint: String },
    /// It did not.
    Error { summary: String, details: String, scroll: u16, hint: String },
}

/// A screen as a value.
pub enum ScreenView {
    Running { title: Seq<char>, body: Seq<char>, hint: Seq<char> },
    PickTarget { items: Seq<targets::TargetView>, selected: int, hint: Seq<char> },
    PickScheme {
        target: targets::TargetView,
        items: Seq<Seq<char>>,
        selected: int,
        hint: Seq<char>,
    },
    Done { summary: Seq<char>, details: Seq<char>, scroll: int, hint: Seq<char> },
    Error { summary: Seq<char>, details: Seq<char>, scroll: int, hint: Seq<char> },
}

impl View for Screen {
    type V = ScreenView;

    open spec fn view(&self) -> ScreenView {
        match *self {
            Screen::Running { title, body, hint } => ScreenView::Running {
                title: title@,
                body: body@,
                hint: hint@,
            },
            Screen::PickTarget { items, selected, hint } => ScreenView::PickTarget {
                items: targets::target_views(items@),
                selected: selected as int,
                hint: hint@,
            },
            Screen::PickScheme { target, items, selected, hint } => ScreenView::PickScheme {
                target: target@,
                items: schemes::texts(items@),
                selected: selected as int,
                hint: hint@,
            },
            Screen::Done { summary, details, scroll, hint } => ScreenView::Done {
                summary: summary@,
                details: details@,
                scroll: scroll as int,
                hint: hint@,
            },
            Screen::Error { summary, details, scroll, hint } => ScreenView::Error {
                summary: summary@,
                details: details@,
                scroll: scroll as int,
                hint: hint@,
            },
        }
    }
}

/// Text in a frame of lines. `trim` drops the blanks that start a wrapped line, `scroll`
/// is how many lines at the top are out of sight.
pub struct Panel {
    pub area: Area,
    pub title: String,
    pub text: String,
    pub trim: bool,
    pub scroll: u16,
}

/// A list in a frame of lines, with one item highlighted.
pub struct Choices {
    pub area: Area,
    pub title: String,
    pub items: Vec<String>,
    pub selected: usize,
}

/// The middle of the screen.
pub enum Body {
    Text(Panel),
    List(Choices),
}

/// Everything that a screen shows, and where.
pub struct Frame {
    pub header: Panel,
    pub body: Body,
    pub footer: Panel,
}

/// A panel as a value.
pub struct PanelView {
    pub area: Area,
    pub title: Seq<char>,
    pub text: Seq<char>,
    pub trim: bool,
    pub scroll: int,
}

/// The middle of the screen as a value.
pub enum BodyView {
    Text(PanelView),
    List { area: Area, title: Seq<char>, items: Seq<Seq<char>>, selected: int },
}

/// A frame as a value.
pub struct FrameView {
    pub header: PanelView,
    pub body: BodyView,
    pub footer: PanelView,
}

impl View for Panel {
    type V = PanelView;

    open spec fn view(&self) -> PanelView {
        PanelView {
            area: self.area,
            title: self.title@,
            text: self.text@,
            trim: self.trim,
            scroll: self.scroll as int,
        }
    }
}

impl View for Body {
    type V = BodyView;

    open spec fn view(&self) -> BodyView {
        match *self {
            Body::Text(panel) => BodyView::Text(panel@),
            Body::List(list) => BodyView::List {
                area: list.area,
                title: list.title@,
                items: schemes::texts(list.items@),
                selected: list.selected as int,
            },
        }
    }
}

impl View for Frame {
    type V = FrameView;

    open spec fn view(&self) -> FrameView {
        FrameView { header: self.header@, body: self.body@, footer: self.footer@ }
    }
}

/// The kind of a target, then where it lies.
pub open spec fn kind_and_path(kind: Seq<char>, shown: Seq<char>) -> Seq<char> {
    kind + ": "@ + shown
}

/// How a target is called in running text.
pub open spec fn target_text(target: targets::TargetView) -> Seq<char> {
    kind_and_path(target.kind(), text::text_of(target.path()))
}

/// One line of the list of targets.
pub open spec fn label(kind: Seq<char>, shown: Seq<char>) -> Seq<char> {
    "["@ + kind + "] "@ + shown
}

/// The line of the list of targets that stands for `target`.
pub open spec fn target_label(target: targets::TargetView) -> Seq<char> {
    label(target.kind(), text::text_of(target.path()))
}

/// What happened, and below it the details.
pub open spec fn report(summary: Seq<char>, details: Seq<char>) -> Seq<char> {
    summary + "\n\n"@ + details
}

/// The keys that a screen tells of.
pub open spec fn hint_of(screen: ScreenView) -> Seq<char> {
    match screen {
        ScreenView::Running { hint, .. } => hint,
        ScreenView::PickTarget { hint, .. } => hint,
        ScreenView::PickScheme { hint, .. } => hint,
        ScreenView::Done { hint, .. } => hint,
        ScreenView::Error { hint, .. } => hint,
    }
}

/// Text in the middle of the screen.
pub open spec fn text_body(
    area: Area,
    title: Seq<char>,
    text: Seq<char>,
    scroll: int,
) -> BodyView {
    BodyView::Text(PanelView { area, title, text, trim: false, scroll })
}

/// What stands in the middle of a screen.
pub open spec fn body_of(screen: ScreenView, area: Area) -> BodyView {
    match screen {
        ScreenView::Running { title, body, .. } => text_body(area, title, body, 0),
        ScreenView::PickTarget { items, selected, .. } => BodyView::List {
            area,
            title: "Pick target"@,
            items: items.map_values(|target: targets::TargetView| target_label(target)),
            selected,
        },
        ScreenView::PickScheme { target, items, selected, .. } => BodyView::List {
            area,
            title: "Pick scheme • "@ + target_text(target),
            items,
            selected,
        },
        ScreenView::Done { summary, details, scroll, .. } => text_body(
            area,
            "Done"@,
            report(summary, details),
            scroll,
        ),
        ScreenView::Error { summary, details, scroll, .. } => text_body(
            area,
            "Error"@,
            report(summary, details),
            scroll,
        ),
    }
}

/// What a screen shows, in three rows.
pub open spec fn frame_of(screen: ScreenView, rows: Seq<Area>) -> FrameView {
    FrameView {
        header: PanelView {
            area: rows[0],
            title: "Header"@,
            text: "XcodeLspGen"@,
            trim: true,
            scroll: 0,
        },
        body: body_of(screen, rows[1]),
        footer: PanelView {
            area: rows[2],
            title: "Keys"@,
            text: hint_of(screen),
            trim: true,
            scroll: 0,
        },
    }
}

/// The kind of a target, then where it lies.
pub fn join_kind_and_path(kind: &str, shown: &str) -> (joined: String)
    ensures
        joined@ == kind_and_path(kind@, shown@),
{
    let mut joined: String = kind.to_owned();
    joined.append(": ");
    joined.append(shown);
    joined
}

/// How a target is called in running text.
pub fn describe(target: &XcodeTarget) -> (description: String)
    ensures
        description@ == target_text(target@),
{
    let shown: String = text::read_text(target.path());
    join_kind_and_path(target.kind(), shown.as_str())
}

/// One line of the list of targets.
pub fn join_label(kind: &str, shown: &str) -> (joined: String)
    ensures
        joined@ == label(kind@, shown@),
{
    let mut joined: String = "[".to_owned();
    joined.append(kind);
    joined.append("] ");
    joined.append(shown);
    joined
}

/// What happened, and below it the details.
pub fn join_report(summary: &str, details: &str) -> (joined: String)
    ensures
        joined@ == report(summary@, details@),
{
    let mut joined: String = summary.to_owned();
    joined.append("\n\n");
    joined.append(details);
    joined
}

/// The lines of the list of targets.
fn labels(items: &Vec<XcodeTarget>) -> (lines: Vec<String>)
    ensures
        schemes::texts(lines@) == targets::target_views(items@).map_values(
            |target: targets::TargetView| target_label(target),
        ),
{
    let mut lines: Vec<String> = Vec::new();
    let mut i: usize = 0;
    while i < items.len()
        invariant
            i <= items@.len(),
            lines@.len() == i,
            forall|k: int| 0 <= k < i ==> (#[trigger] lines@[k])@ == target_label(items@[k]@),
        decreases items@.len() - i,
    {
        let shown: String = text::read_text(items[i].path());
        lines.push(join_label(items[i].kind(), shown.as_str()));
        i = i + 1;
    }
    assert(schemes::texts(lines@) == targets::target_views(items@).map_values(
        |target: targets::TargetView| target_label(target),
    ));
    lines
}

/// The same texts once more.
fn copy_texts(items: &Vec<String>) -> (copies: Vec<String>)
    ensures
        schemes::texts(copies@) == schemes::texts(items@),
{
    let mut copies: Vec<String> = Vec::new();
    let mut i: usize = 0;
    while i < items.len()
        invariant
            i <= items@.len(),
            copies@.len() == i,
            forall|k: int| 0 <= k < i ==> (#[trigger] copies@[k])@ == items@[k]@,
        decreases items@.len() - i,
    {
        copies.push(items[i].clone());
        i = i + 1;
    }
    assert(schemes::texts(copies@) == schemes::texts(items@));
    copies
}

impl Screen {
    /// The keys that the screen tells of.
    pub fn hint(&self) -> (hint: &String)
        ensures
            hint@ == hint_of(self@),
    {
        match self {
            Screen::Running { hint, .. } => hint,
            Screen::PickTarget { hint, .. } => hint,
            Screen::PickScheme { hint, .. } => hint,
            Screen::Done { hint, .. } => hint,
            Screen::Error { hint, .. } => hint,
        }
    }
}

/// What stands in the middle of a screen.
fn draw_body(screen: &Screen, area: Area) -> (body: Body)
    ensures
        body@ == body_of(screen@, area),
{
    match screen {
        Screen::Running { title, body, .. } => Body::Text(
            Panel { area, title: title.clone(), text: body.clone(), trim: false, scroll: 0 },
        ),
        Screen::PickTarget { items, selected, .. } => Body::List(
            Choices {
                area,
                title: "Pick target".to_owned(),
                items: labels(items),
                selected: *selected,
            },
        ),
        Screen::PickScheme { target, items, selected, .. } => {
            let mut title: String = "Pick scheme • ".to_owned();
            let description: String = describe(target);
            title.append(description.as_str());
            Body::List(Choices { area, title, items: copy_texts(items), selected: *selected })
        },
        Screen::Done { summary, details, scroll, .. } => Body::Text(
            Panel {
                area,
                title: "Done".to_owned(),
                text: join_report(summary.as_str(), details.as_str()),
                trim: false,
                scroll: *scroll,
            },
        ),
        Screen::Error { summary, details, scroll, .. } => Body::Text(
            Panel {
                area,
                title: "Error".to_owned(),
                text: join_report(summary.as_str(), details.as_str()),
                trim: false,
                scroll: *scroll,
            },
        ),
    }
}

/// What a screen shows in given rows.
pub fn draw_in_rows(screen: &Screen, rows: &Vec<Area>) -> (frame: Frame)
    requires
        rows@.len() == 3,
    ensures
        frame@ == frame_of(screen@, rows@),
{
    Frame {
        header: Panel {
            area: rows[0],
            title: "Header".to_owned(),
            text: "XcodeLspGen".to_owned(),
            trim: true,
            scroll: 0,
        },
        body: draw_body(screen, rows[1]),
        footer: Panel {
            area: rows[2],
            title: "Keys".to_owned(),
            text: screen.hint().clone(),
            trim: true,
            scroll: 0,
        },
    }
}

/// What a screen shows when `area` is there for it.
pub fn draw(screen: &Screen, area: Area) -> (frame: Frame)
    ensures
        exists|rows: Seq<Area>|
            {
                &&& #[trigger] layout::are_rows(rows, area)
                &&& layout::is_short(area, layout::HEADER_ROWS, layout::FOOTER_ROWS)
                    ==> layout::are_cut(rows, layout::HEADER_ROWS, layout::FOOTER_ROWS)
                &&& frame@ == frame_of(screen@, rows)
            },
        layout::has_room(area, layout::HEADER_ROWS, layout::BODY_ROWS, layout::FOOTER_ROWS)
            ==> frame@ == frame_of(
            screen@,
            layout::stacked(area, layout::HEADER_ROWS, layout::FOOTER_ROWS),
        ),
{
    let rows: Vec<Area> = layout::split_rows(
        area,
        layout::HEADER_ROWS,
        layout::BODY_ROWS,
        layout::FOOTER_ROWS,
    );
    draw_in_rows(screen, &rows)
}

/// A target in running text: the word for its kind, a colon, and the text of its path.
pub open spec fn called(target: XcodeTarget) -> Seq<char> {
    targets::word(target) + ": "@ + text::text_of(targets::place(target))
}

/// A target on its line in the list: the word for its kind in brackets, then the text of its
/// path.
pub open spec fn lined(target: XcodeTarget) -> Seq<char> {
    "["@ + targets::word(target) + "] "@ + text::text_of(targets::place(target))
}

/// The text in `panel`, with this title, scrolled by this many lines, blanks and all.
pub open spec fn holds(panel: Panel, title: Seq<char>, text: Seq<char>, scroll: int) -> bool {
    &&& panel.title@ == title
    &&& panel.text@ == text
    &&& panel.scroll == scroll
    &&& !panel.trim
}

/// `body` shows what is in `screen`: a text as it is, and a list with a line for every item
/// and the selected item highlighted.
pub open spec fn shows(screen: Screen, body: Body) -> bool {
    match screen {
        Screen::Running { title, body: text, .. } => body matches Body::Text(panel) && holds(
            panel,
            title@,
            text@,
            0,
        ),
        Screen::PickTarget { items, selected, .. } => body matches Body::List(list) && {
            &&& list.title@ == "Pick target"@
            &&& list.selected == selected
            &&& list.items@.len() == items@.len()
            &&& forall|i: int|
                0 <= i < items@.len() ==> (#[trigger] list.items@[i])@ == lined(items@[i])
        },
        Screen::PickScheme { target, items, selected, .. } => body matches Body::List(list) && {
            &&& list.title@ == "Pick scheme • "@ + called(target)
            &&& list.selected == selected
            &&& schemes::same_texts(list.items@, items@)
        },
        Screen::Done { summary, details, scroll, .. } => body matches Body::Text(panel) && holds(
            panel,
            "Done"@,
            summary@ + "\n\n"@ + details@,
            scroll as int,
        ),
        Screen::Error { summary, details, scroll, .. } => body matches Body::Text(panel) && holds(
            panel,
            "Error"@,
            summary@ + "\n\n"@ + details@,
            scroll as int,
        ),
    }
}

/// Where the middle of the screen lies.
pub open spec fn middle(body: Body) -> Area {
    match body {
        Body::Text(panel) => panel.area,
        Body::List(list) => list.area,
    }
}

/// The keys that are told on `screen`.
pub open spec fn told(screen: Screen) -> Seq<char> {
    match screen {
        Screen::Running { hint, .. } => hint@,
        Screen::PickTarget { hint, .. } => hint@,
        Screen::PickScheme { hint, .. } => hint@,
        Screen::Done { hint, .. } => hint@,
        Screen::Error { hint, .. } => hint@,
    }
}

/// `frame` shows `screen`: the name of the program on top, the screen in the middle, and the
/// keys below.
pub open spec fn frames(screen: Screen, frame: Frame) -> bool {
    &&& frame.header.title@ == "Header"@
    &&& frame.header.text@ == "XcodeLspGen"@
    &&& frame.header.scroll == 0 && frame.header.trim
    &&& shows(screen, frame.body)
    &&& frame.footer.title@ == "Keys"@
    &&& frame.footer.text@ == told(screen)
    &&& frame.footer.scroll == 0 && frame.footer.trim
}

proof fn lemma_shows(screen: Screen, area: Area, body: Body)
    requires
        body@ == body_of(screen@, area),
    ensures
        shows(screen, body),
        middle(body) == area,
{
    match screen {
        Screen::PickTarget { items, .. } => {
            if let Body::List(list) = body {
                let lines = schemes::texts(list.items@);
                let views = targets::target_views(items@);
                assert(lines == views.map_values(
                    |target: targets::TargetView| target_label(target),
                ));
                assert(lines.len() == items@.len());
                assert forall|i: int| 0 <= i < items@.len() implies (#[trigger] list.items@[i])@
                    == lined(items@[i]) by {
                    assert(lines[i] == list.items@[i]@);
                    assert(views[i] == items@[i]@);
                }
            }
        },
        Screen::PickScheme { items, .. } => {
            if let Body::List(list) = body {
                let lines = schemes::texts(list.items@);
                assert(lines == schemes::texts(items@));
                assert(lines.len() == items@.len());
                assert forall|i: int| 0 <= i < items@.len() implies (#[trigger] list.items@[i])@
                    == items@[i]@ by {
                    assert(lines[i] == list.items@[i]@);
                    assert(schemes::texts(items@)[i] == items@[i]@);
                }
            }
        },
        _ => {},
    }
}

/// What is drawn in three rows is the screen, from the top down.
pub proof fn law_rows_show_screen(screen: &Screen, rows: &Vec<Area>, frame: Frame)
    requires
        rows@.len() == 3,
        call_ensures(draw_in_rows, (screen, rows), frame),
    ensures
        frames(*screen, frame),
        frame.header.area == rows@[0],
        middle(frame.body) == rows@[1],
        frame.footer.area == rows@[2],
{
    lemma_shows(*screen, rows@[1], frame.body);
}

/// What is drawn is the screen, in rows that fill the area from the top down: three for
/// the header and two for the footer if the area has as many, and all others for the
/// middle.
pub proof fn law_drawing_shows_screen(screen: &Screen, area: Area, frame: Frame)
    requires
        call_ensures(draw, (screen, area), frame),
    ensures
        frames(*screen, frame),
        ({
            let (top, mid, low) = (frame.header.area, middle(frame.body), frame.footer.area);
            &&& top.x == area.x && mid.x == area.x && low.x == area.x
            &&& top.width == area.width && mid.width == area.width && low.width == area.width
            &&& area.y + area.height <= 65535 ==> {
                &&& top.y == area.y
                &&& mid.y == top.y + top.height
                &&& low.y == mid.y + mid.height
                &&& low.y + low.height == area.y + area.height
                &&& area.height >= 5 ==> top.height == 3 && low.height == 2
                &&& area.height < 5 ==> top.height <= 3 && mid.height == 0 && low.height <= 2
            }
        }),
{
    let rows = choose|rows: Seq<Area>|
        {
            &&& #[trigger] layout::are_rows(rows, area)
            &&& layout::is_short(area, layout::HEADER_ROWS, layout::FOOTER_ROWS)
                ==> layout::are_cut(rows, layout::HEADER_ROWS, layout::FOOTER_ROWS)
            &&& frame@ == frame_of(screen@, rows)
        };
    lemma_shows(*screen, rows[1], frame.body);
    assert(rows[0] == frame.header.area && rows[2] == frame.footer.area);
    if area.height >= 5 && area.y + area.height <= 65535 {
        let stacked = layout::stacked(area, layout::HEADER_ROWS, layout::FOOTER_ROWS);
        assert(frame@ == frame_of(screen@, stacked));
        assert(stacked[0] == frame.header.area && stacked[2] == frame.footer.area);
    }
}

/// Targets are called by kind and path, and texts are put together from the parts that
/// are handed in, in this order.
pub proof fn law_texts_name_their_parts(
    target: &XcodeTarget,
    description: String,
    screen: &Screen,
    hint: &String,
    first: &str,
    second: &str,
    running: String,
    line: String,
    report_text: String,
)
    requires
        call_ensures(describe, (target,), description),
        call_ensures(Screen::hint, (screen,), hint),
        call_ensures(join_kind_and_path, (first, second), running),
        call_ensures(join_label, (first, second), line),
        call_ensures(join_report, (first, second), report_text),
    ensures
        description@ == called(*target),
        hint@ == told(*screen),
        running@ == first@ + ": "@ + second@,
        line@ == "["@ + first@ + "] "@ + second@,
        report_text@ == first@ + "\n\n"@ + second@,
{
}

} // verus!
