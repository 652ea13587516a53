use xcode_lsp_gen::args::Args;
use xcode_lsp_gen::targets::{
    explicit_target, scan_for_xcode_targets, scan_targets_ordered, WalkItem, XcodeTarget,
};

fn dir(path: &str) -> WalkItem {
    WalkItem::Entry { path: path.as_bytes().to_vec(), is_dir: true }
}

fn file(path: &str) -> WalkItem {
    WalkItem::Entry { path: path.as_bytes().to_vec(), is_dir: false }
}

fn shown(targets: &[XcodeTarget]) -> Vec<String> {
    targets
        .iter()
        .map(|t| format!("{} {}", t.kind(), String::from_utf8(t.path().clone()).unwrap()))
        .collect()
}

fn args(workspace: Option<&str>, project: Option<&str>) -> Args {
    Args {
        dir: b".".to_vec(),
        prefer_workspace: true,
        non_interactive: false,
        scheme: None,
        workspace: workspace.map(|p| p.as_bytes().to_vec()),
        project: project.map(|p| p.as_bytes().to_vec()),
    }
}

fn tree() -> Vec<WalkItem> {
    vec![
        dir("."),
        dir("./b/B.xcworkspace"),
        WalkItem::Unreadable,
        dir("./b/B.xcodeproj"),
        dir("./b/B.xcodeproj/project.xcworkspace"),
        file("./a/A.xcodeproj"),
        dir("./a/A.xcworkspace"),
        dir("./a-z/C.xcodeproj"),
        dir("./a/C.xcodeproj"),
        dir("./.xcodeproj"),
        file("./notes.txt"),
    ]
}

#[test]
fn kind_and_path_of_a_target() {
    let workspace = XcodeTarget::Workspace(b"A.xcworkspace".to_vec());
    let project = XcodeTarget::Project(b"A.xcodeproj".to_vec());
    assert_eq!(workspace.kind(), "workspace");
    assert_eq!(project.kind(), "project");
    assert_eq!(workspace.path(), b"A.xcworkspace");
    assert_eq!(project.clone().path(), b"A.xcodeproj");
}

#[test]
fn an_explicit_workspace_goes_before_a_project() {
    let both = explicit_target(&args(Some("w"), Some("p"))).unwrap();
    assert_eq!((both.kind(), both.path().as_slice()), ("workspace", &b"w"[..]));
    let project = explicit_target(&args(None, Some("p"))).unwrap();
    assert_eq!((project.kind(), project.path().as_slice()), ("project", &b"p"[..]));
    assert!(explicit_target(&args(None, None)).is_none());
}

#[test]
fn a_scan_sorts_directories_by_extension() {
    let (workspaces, projects) = scan_for_xcode_targets(&tree());
    assert_eq!(
        workspaces,
        [
            b"./a/A.xcworkspace".to_vec(),
            b"./b/B.xcodeproj/project.xcworkspace".to_vec(),
            b"./b/B.xcworkspace".to_vec(),
        ]
    );
    assert_eq!(
        projects,
        [b"./a/C.xcodeproj".to_vec(), b"./a-z/C.xcodeproj".to_vec(), b"./b/B.xcodeproj".to_vec()]
    );
}

#[test]
fn workspaces_stand_first_when_preferred() {
    assert_eq!(
        shown(&scan_targets_ordered(&tree(), true)),
        [
            "workspace ./a/A.xcworkspace",
            "workspace ./b/B.xcworkspace",
            "project ./a/C.xcodeproj",
            "project ./a-z/C.xcodeproj",
            "project ./b/B.xcodeproj",
        ]
    );
}

#[test]
fn projects_stand_first_otherwise() {
    assert_eq!(
        shown(&scan_targets_ordered(&tree(), false)),
        [
            "project ./a/C.xcodeproj",
            "project ./a-z/C.xcodeproj",
            "project ./b/B.xcodeproj",
            "workspace ./a/A.xcworkspace",
            "workspace ./b/B.xcworkspace",
        ]
    );
}

#[test]
fn the_order_of_the_walk_does_not_show() {
    let mut turned = tree();
    turned.reverse();
    assert_eq!(shown(&scan_targets_ordered(&turned, true)), shown(&scan_targets_ordered(&tree(), true)));
    assert_eq!(scan_for_xcode_targets(&turned), scan_for_xcode_targets(&tree()));
}

#[test]
fn only_workspaces_inside_project_bundles_are_left_out() {
    let items = vec![
        dir("x/project.xcworkspace"),
        dir("x.xcodeproj/other.xcworkspace"),
        dir("x.xcodeproj/project.xcworkspace"),
    ];
    assert_eq!(
        shown(&scan_targets_ordered(&items, true)),
        ["workspace x/project.xcworkspace", "workspace x.xcodeproj/other.xcworkspace"]
    );
}

#[test]
fn nothing_found_is_no_target() {
    assert!(scan_targets_ordered(&Vec::new(), true).is_empty());
    assert!(scan_targets_ordered(&vec![WalkItem::Unreadable, file("A.xcodeproj")], false).is_empty());
}
