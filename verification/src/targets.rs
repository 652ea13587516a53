//! Workspaces and projects: what can be built, and how a scan finds it.

use crate::args;
use crate::args::Args;
use crate::paths;
use crate::sorting;
use vstd::prelude::*;

verus! {

/// Something that schemes belong to.
#[derive(Debug)]
pub enum XcodeTarget {
    /// The path of an `.xcworkspace`.
    Workspace(Vec<u8>),
    /// The path of an `.xcodeproj`.
    Project(Vec<u8>),
}

/// A target as a value.
pub enum TargetView {
    Workspace(Seq<u8>),
    Project(Seq<u8>),
}

impl TargetView {
    /// The word for this kind of target.
    pub open spec fn kind(self) -> Seq<char> {
        match self {
            TargetView::Workspace(_) => "workspace"@,
            TargetView::Project(_) => "project"@,
        }
    }

    /// Where the target lies.
    pub open spec fn path(self) -> Seq<u8> {
        match self {
            TargetView::Workspace(path) => path,
            TargetView::Project(path) => path,
        }
    }
}

impl View for XcodeTarget {
    type V = TargetView;

    open spec fn view(&self) -> TargetView {
        match *self {
            XcodeTarget::Workspace(path) => TargetView::Workspace(path@),
            XcodeTarget::Project(path) => TargetView::Project(path@),
        }
    }
}

/// The values of a list of targets.
pub open spec fn target_views(targets: Seq<XcodeTarget>) -> Seq<TargetView> {
    targets.map_values(|target: XcodeTarget| target@)
}

impl XcodeTarget {
    /// The word for this kind of target.
    pub fn kind(&self) -> (kind: &'static str)
        ensures
            kind@ == self@.kind(),
    {
        match self {
            XcodeTarget::Workspace(_) => "workspace",
            XcodeTarget::Project(_) => "project",
        }
    }

    /// Where the target lies.
    pub fn path(&self) -> (path: &Vec<u8>)
        ensures
            path@ == self@.path(),
    {
        match self {
            XcodeTarget::Workspace(path) => path,
            XcodeTarget::Project(path) => path,
        }
    }
}

impl Clone for XcodeTarget {
    fn clone(&self) -> (copy: XcodeTarget)
        ensures
            copy@ == self@,
    {
        match self {
            XcodeTarget::Workspace(path) => XcodeTarget::Workspace(path.clone()),
            XcodeTarget::Project(path) => XcodeTarget::Project(path.clone()),
        }
    }
}

/// The target that the command line names, if it names one. A workspace goes before a
/// project.
pub open spec fn named_target(args: args::ArgsView) -> Option<TargetView> {
    match (args.workspace, args.project) {
        (Some(path), _) => Some(TargetView::Workspace(path)),
        (None, Some(path)) => Some(TargetView::Project(path)),
        (None, None) => None,
    }
}

/// The value of a target that may not be there.
pub open spec fn target_view(target: Option<XcodeTarget>) -> Option<TargetView> {
    match target {
        Some(target) => Some(target@),
        None => None,
    }
}

/// The target that the command line names, if it names one.
pub fn explicit_target(args: &Args) -> (target: Option<XcodeTarget>)
    ensures
        target_view(target) == named_target(args@),
{
    if let Some(workspace) = &args.workspace {
        return Some(XcodeTarget::Workspace(workspace.clone()));
    }
    if let Some(project) = &args.project {
        return Some(XcodeTarget::Project(project.clone()));
    }
    None
}

/// One thing that a walk through a directory tree came to.
pub enum WalkItem {
    /// An entry of the tree.
    Entry { path: Vec<u8>, is_dir: bool },
    /// Something that could not be read.
    Unreadable,
}

/// The path of a directory that the walk came to.
pub open spec fn directory(item: WalkItem) -> Option<Seq<u8>> {
    match item {
        WalkItem::Entry { path, is_dir } => if is_dir {
            Some(path@)
        } else {
            None
        },
        WalkItem::Unreadable => None,
    }
}

/// The directories that the walk came to, in its order.
pub open spec fn directories(items: Seq<WalkItem>) -> Seq<Seq<u8>> {
    items.filter_map(|item: WalkItem| directory(item))
}

/// The path has the extension `ext`.
pub open spec fn is_bundle(path: Seq<u8>, ext: Seq<char>) -> bool {
    paths::extension(path) == Some(vstd::utf8::encode_utf8(ext))
}

/// The directories with the extension `ext`, in the order of their paths.
pub open spec fn bundles(items: Seq<WalkItem>, ext: Seq<char>) -> Seq<Seq<u8>> {
    sorting::sorted_paths(directories(items).filter(|path: Seq<u8>| is_bundle(path, ext)))
}

/// The workspace that Xcode keeps inside every project bundle.
pub open spec fn is_internal(path: Seq<u8>) -> bool {
    vstd::utf8::encode_utf8(".xcodeproj/project.xcworkspace"@).is_suffix_of(path)
}

/// The workspaces that a walk came to, without those inside project bundles.
pub open spec fn workspace_targets(items: Seq<WalkItem>) -> Seq<TargetView> {
    bundles(items, "xcworkspace"@).filter(|path: Seq<u8>| !is_internal(path)).map_values(
        |path: Seq<u8>| TargetView::Workspace(path),
    )
}

/// The projects that a walk came to.
pub open spec fn project_targets(items: Seq<WalkItem>) -> Seq<TargetView> {
    bundles(items, "xcodeproj"@).map_values(|path: Seq<u8>| TargetView::Project(path))
}

/// All targets that a walk came to, the preferred kind first.
pub open spec fn found_targets(items: Seq<WalkItem>, prefer_workspace: bool) -> Seq<TargetView> {
    if prefer_workspace {
        workspace_targets(items) + project_targets(items)
    } else {
        project_targets(items) + workspace_targets(items)
    }
}

proof fn lemma_bundles_step(items: Seq<WalkItem>, i: int, ext: Seq<char>)
    requires
        0 <= i < items.len(),
    ensures
        bundles(items.take(i + 1), ext) == match directory(items[i]) {
            Some(path) if is_bundle(path, ext) => sorting::insert_path(
                bundles(items.take(i), ext),
                path,
            ),
            _ => bundles(items.take(i), ext),
        },
{
    let found = |item: WalkItem| directory(item);
    let keep = |path: Seq<u8>| is_bundle(path, ext);
    items.lemma_filter_map_take_succ(found, i);
    let before = directories(items.take(i));
    match directory(items[i]) {
        Some(path) => {
            assert(directories(items.take(i + 1)) == before.push(path));
            sorting::lemma_filter_push(before, path, keep);
            if keep(path) {
                let kept = before.filter(keep);
                assert(kept.push(path).drop_last() == kept);
            }
        },
        None => {
            assert(directories(items.take(i + 1)) == before);
        },
    }
}

/// The workspaces and the projects that a walk came to, each in the order of their paths.
/// Only directories count; what could not be read is passed over.
pub fn scan_for_xcode_targets(items: &Vec<WalkItem>) -> (found: (Vec<Vec<u8>>, Vec<Vec<u8>>))
    ensures
        sorting::all_bytes(found.0@) == bundles(items@, "xcworkspace"@),
        sorting::all_bytes(found.1@) == bundles(items@, "xcodeproj"@),
{
    let mut workspaces: Vec<Vec<u8>> = Vec::new();
    let mut projects: Vec<Vec<u8>> = Vec::new();
    let mut i: usize = 0;
    proof {
        reveal(Seq::filter);
        reveal(Seq::filter_map);
        assert(sorting::all_bytes(workspaces@) == bundles(items@.take(0), "xcworkspace"@));
        assert(sorting::all_bytes(projects@) == bundles(items@.take(0), "xcodeproj"@));
    }
    while i < items.len()
        invariant
            i <= items@.len(),
            sorting::all_bytes(workspaces@) == bundles(items@.take(i as int), "xcworkspace"@),
            sorting::all_bytes(projects@) == bundles(items@.take(i as int), "xcodeproj"@),
        decreases items@.len() - i,
    {
        proof {
            lemma_bundles_step(items@, i as int, "xcworkspace"@);
            lemma_bundles_step(items@, i as int, "xcodeproj"@);
        }
        if let WalkItem::Entry { path, is_dir } = &items[i] {
            if *is_dir {
                if paths::has_extension(path, "xcworkspace") {
                    sorting::insert_sorted(&mut workspaces, path.clone());
                }
                if paths::has_extension(path, "xcodeproj") {
                    sorting::insert_sorted(&mut projects, path.clone());
                }
            }
        }
        i = i + 1;
    }
    assert(items@.take(items@.len() as int) == items@);
    (workspaces, projects)
}

/// The targets that a walk came to: workspaces, without those that Xcode keeps inside
/// project bundles, and projects, the preferred kind first.
pub fn scan_targets_ordered(items: &Vec<WalkItem>, prefer_workspace: bool) -> (targets: Vec<
    XcodeTarget,
>)
    ensures
        target_views(targets@) == found_targets(items@, prefer_workspace),
{
    let found: (Vec<Vec<u8>>, Vec<Vec<u8>>) = scan_for_xcode_targets(items);
    let mut targets: Vec<XcodeTarget> = Vec::new();
    if prefer_workspace {
        push_workspaces(&found.0, &mut targets);
        push_projects(&found.1, &mut targets);
    } else {
        push_projects(&found.1, &mut targets);
        push_workspaces(&found.0, &mut targets);
    }
    proof {
        assert(target_views(Seq::<XcodeTarget>::empty()) == Seq::<TargetView>::empty());
        let none = Seq::<TargetView>::empty();
        assert(none + workspace_targets(items@) == workspace_targets(items@));
        assert(none + project_targets(items@) == project_targets(items@));
    }
    targets
}

/// Appends the workspaces that no project bundle holds.
fn push_workspaces(list: &Vec<Vec<u8>>, targets: &mut Vec<XcodeTarget>)
    ensures
        target_views(final(targets)@) == target_views(old(targets)@) + sorting::all_bytes(
            list@,
        ).filter(|path: Seq<u8>| !is_internal(path)).map_values(
            |path: Seq<u8>| TargetView::Workspace(path),
        ),
{
    let ghost before = target_views(targets@);
    let ghost all = sorting::all_bytes(list@);
    let ghost keep = |path: Seq<u8>| !is_internal(path);
    let ghost wrap = |path: Seq<u8>| TargetView::Workspace(path);
    let mut i: usize = 0;
    proof {
        reveal(Seq::filter);
        assert(target_views(targets@) == before + all.take(0).filter(keep).map_values(wrap));
    }
    while i < list.len()
        invariant
            i <= list@.len(),
            all == sorting::all_bytes(list@),
            keep == (|path: Seq<u8>| !is_internal(path)),
            wrap == (|path: Seq<u8>| TargetView::Workspace(path)),
            target_views(targets@) == before + all.take(i as int).filter(keep).map_values(wrap),
        decreases list@.len() - i,
    {
        let path: &Vec<u8> = &list[i];
        let ghost kept = all.take(i as int).filter(keep);
        proof {
            assert(all.take(i + 1) == all.take(i as int).push(path@));
            sorting::lemma_filter_push(all.take(i as int), path@, keep);
        }
        if !paths::ends_with(path, ".xcodeproj/project.xcworkspace") {
            let ghost seen = target_views(targets@);
            targets.push(XcodeTarget::Workspace(path.clone()));
            assert(target_views(targets@) == seen.push(TargetView::Workspace(path@)));
            assert(kept.push(path@).map_values(wrap) == kept.map_values(wrap).push(
                TargetView::Workspace(path@),
            ));
            assert(target_views(targets@) == before + kept.push(path@).map_values(wrap));
        }
        i = i + 1;
    }
    assert(all.take(list@.len() as int) == all);
}

/// Appends the projects.
fn push_projects(list: &Vec<Vec<u8>>, targets: &mut Vec<XcodeTarget>)
    ensures
        target_views(final(targets)@) == target_views(old(targets)@) + sorting::all_bytes(
            list@,
        ).map_values(|path: Seq<u8>| TargetView::Project(path)),
{
    let ghost before = target_views(targets@);
    let ghost all = sorting::all_bytes(list@);
    let ghost wrap = |path: Seq<u8>| TargetView::Project(path);
    let mut i: usize = 0;
    proof {
        assert(target_views(targets@) == before + all.take(0).map_values(wrap));
    }
    while i < list.len()
        invariant
            i <= list@.len(),
            all == sorting::all_bytes(list@),
            wrap == (|path: Seq<u8>| TargetView::Project(path)),
            target_views(targets@) == before + all.take(i as int).map_values(wrap),
        decreases list@.len() - i,
    {
        let path: &Vec<u8> = &list[i];
        let ghost seen = target_views(targets@);
        targets.push(XcodeTarget::Project(path.clone()));
        proof {
            assert(target_views(targets@) == seen.push(TargetView::Project(path@)));
            assert(all.take(i + 1).map_values(wrap) == all.take(i as int).map_values(wrap).push(
                TargetView::Project(path@),
            ));
            assert(target_views(targets@) == before + all.take(i + 1).map_values(wrap));
        }
        i = i + 1;
    }
    assert(all.take(list@.len() as int) == all);
}


/// The walk came to a directory with this path and this extension.
pub open spec fn came_to(items: Seq<WalkItem>, path: Seq<u8>, ext: Seq<char>) -> bool {
    directories(items).contains(path) && is_bundle(path, ext)
}

proof fn lemma_bundles_contain(items: Seq<WalkItem>, ext: Seq<char>, path: Seq<u8>)
    ensures
        bundles(items, ext).contains(path) <==> came_to(items, path, ext),
{
    broadcast use vstd::seq_lib::group_to_multiset_ensures;

    let keep = |p: Seq<u8>| is_bundle(p, ext);
    let kept = directories(items).filter(keep);
    sorting::law_sorted_paths(kept);
    assert(bundles(items, ext).contains(path) <==> bundles(items, ext).to_multiset().count(path)
        > 0);
    assert(kept.contains(path) <==> kept.to_multiset().count(path) > 0);
    if kept.contains(path) {
        directories(items).lemma_filter_contains_rev(keep, path);
        let i = choose|i: int| 0 <= i < kept.len() && kept[i] == path;
        directories(items).lemma_filter_pred(keep, i);
    }
    if came_to(items, path, ext) {
        let i = choose|i: int| 0 <= i < directories(items).len() && directories(items)[i] == path;
        directories(items).lemma_filter_contains(keep, i);
    }
}

/// A scan finds every target and nothing else: a path is offered as a workspace exactly if
/// it is a directory `*.xcworkspace` that the walk came to and that no project bundle
/// holds, and as a project exactly if it is a directory `*.xcodeproj`.
pub proof fn law_scan_finds_all(items: Seq<WalkItem>, prefer_workspace: bool, path: Seq<u8>)
    ensures
        found_targets(items, prefer_workspace).contains(TargetView::Workspace(path)) <==> came_to(
            items,
            path,
            "xcworkspace"@,
        ) && !is_internal(path),
        found_targets(items, prefer_workspace).contains(TargetView::Project(path)) <==> came_to(
            items,
            path,
            "xcodeproj"@,
        ),
{
    let found = found_targets(items, prefer_workspace);
    let workspaces = bundles(items, "xcworkspace"@);
    let projects = bundles(items, "xcodeproj"@);
    let keep = |p: Seq<u8>| !is_internal(p);
    let kept = workspaces.filter(keep);
    lemma_bundles_contain(items, "xcworkspace"@, path);
    lemma_bundles_contain(items, "xcodeproj"@, path);
    let shift_w: int = if prefer_workspace {
        0
    } else {
        projects.len() as int
    };
    let shift_p: int = if prefer_workspace {
        kept.len() as int
    } else {
        0
    };
    assert forall|i: int| 0 <= i < kept.len() implies #[trigger] found[shift_w + i]
        == TargetView::Workspace(kept[i]) by {}
    assert forall|i: int| 0 <= i < projects.len() implies #[trigger] found[shift_p + i]
        == TargetView::Project(projects[i]) by {}
    if found.contains(TargetView::Workspace(path)) {
        let i = choose|i: int| 0 <= i < found.len() && found[i] == TargetView::Workspace(path);
        if shift_p <= i < shift_p + projects.len() {
            assert(found[shift_p + (i - shift_p)] == TargetView::Project(projects[i - shift_p]));
        } else {
            assert(found[shift_w + (i - shift_w)] == TargetView::Workspace(kept[i - shift_w]));
            workspaces.lemma_filter_pred(keep, i - shift_w);
            workspaces.lemma_filter_contains_rev(keep, path);
        }
    }
    if workspaces.contains(path) && !is_internal(path) {
        let i = choose|i: int| 0 <= i < workspaces.len() && workspaces[i] == path;
        workspaces.lemma_filter_contains(keep, i);
        let j = choose|j: int| 0 <= j < kept.len() && kept[j] == path;
        assert(found[shift_w + j] == TargetView::Workspace(path));
    }
    if found.contains(TargetView::Project(path)) {
        let i = choose|i: int| 0 <= i < found.len() && found[i] == TargetView::Project(path);
        if shift_w <= i < shift_w + kept.len() {
            assert(found[shift_w + (i - shift_w)] == TargetView::Workspace(kept[i - shift_w]));
        } else {
            assert(found[shift_p + (i - shift_p)] == TargetView::Project(projects[i - shift_p]));
        }
    }
    if projects.contains(path) {
        let j = choose|j: int| 0 <= j < projects.len() && projects[j] == path;
        assert(found[shift_p + j] == TargetView::Project(path));
    }
}

/// The preference only moves targets: both ways the same ones are offered, as often, and
/// the preferred kind stands first.
pub proof fn law_preference_only_moves(items: Seq<WalkItem>)
    ensures
        found_targets(items, true).to_multiset() == found_targets(items, false).to_multiset(),
        forall|i: int, j: int|
            0 <= i < found_targets(items, true).len() && 0 <= j < found_targets(items, true).len()
                && #[trigger] found_targets(items, true)[i] is Workspace
                && #[trigger] found_targets(items, true)[j] is Project ==> i < j,
        forall|i: int, j: int|
            0 <= i < found_targets(items, false).len() && 0 <= j < found_targets(
                items,
                false,
            ).len() && #[trigger] found_targets(items, false)[i] is Project
                && #[trigger] found_targets(items, false)[j] is Workspace ==> i < j,
{
    vstd::seq_lib::lemma_multiset_commutative(workspace_targets(items), project_targets(items));
    vstd::seq_lib::lemma_multiset_commutative(project_targets(items), workspace_targets(items));
    let w = workspace_targets(items).to_multiset();
    let p = project_targets(items).to_multiset();
    assert(w.add(p) == p.add(w));
}

proof fn lemma_filter_to_multiset(paths: Seq<Seq<u8>>, keep: spec_fn(Seq<u8>) -> bool)
    ensures
        paths.filter(keep).to_multiset() == paths.to_multiset().filter(keep),
    decreases paths.len(),
{
    broadcast use vstd::seq_lib::group_to_multiset_ensures;

    reveal(Seq::filter);
    if paths.len() == 0 {
        assert(paths.filter(keep).to_multiset() == paths.to_multiset().filter(keep));
    } else {
        let init = paths.drop_last();
        lemma_filter_to_multiset(init, keep);
        assert(paths == init.push(paths.last()));
        assert(paths.to_multiset() == init.to_multiset().insert(paths.last()));
        assert(paths.filter(keep).to_multiset() == paths.to_multiset().filter(keep));
    }
}

/// The order in which a walk comes to the directories does not show in the targets, if no
/// two different paths have the same components.
pub proof fn law_scan_forgets_walk_order(
    a: Seq<WalkItem>,
    b: Seq<WalkItem>,
    prefer_workspace: bool,
)
    requires
        directories(a).to_multiset() == directories(b).to_multiset(),
        forall|i: int, j: int|
            0 <= i < directories(a).len() && 0 <= j < directories(a).len() && paths::components(
                #[trigger] directories(a)[i],
            ) == paths::components(#[trigger] directories(a)[j]) ==> directories(a)[i]
                == directories(a)[j],
    ensures
        found_targets(a, prefer_workspace) == found_targets(b, prefer_workspace),
{
    lemma_bundles_forget_order(a, b, "xcworkspace"@);
    lemma_bundles_forget_order(a, b, "xcodeproj"@);
}

proof fn lemma_bundles_forget_order(a: Seq<WalkItem>, b: Seq<WalkItem>, ext: Seq<char>)
    requires
        directories(a).to_multiset() == directories(b).to_multiset(),
        forall|i: int, j: int|
            0 <= i < directories(a).len() && 0 <= j < directories(a).len() && paths::components(
                #[trigger] directories(a)[i],
            ) == paths::components(#[trigger] directories(a)[j]) ==> directories(a)[i]
                == directories(a)[j],
    ensures
        bundles(a, ext) == bundles(b, ext),
{
    let keep = |path: Seq<u8>| is_bundle(path, ext);
    let all = directories(a);
    let kept = all.filter(keep);
    lemma_filter_to_multiset(all, keep);
    lemma_filter_to_multiset(directories(b), keep);
    assert forall|i: int, j: int|
        0 <= i < kept.len() && 0 <= j < kept.len() && sorting::path_order(
            #[trigger] kept[i],
            #[trigger] kept[j],
        ) == 0 implies kept[i] == kept[j] by {
        sorting::law_path_order(kept[i], kept[j]);
        all.lemma_filter_contains_rev(keep, kept[i]);
        all.lemma_filter_contains_rev(keep, kept[j]);
        let k = choose|k: int| 0 <= k < all.len() && all[k] == kept[i];
        let l = choose|l: int| 0 <= l < all.len() && all[l] == kept[j];
        assert(paths::components(all[k]) == paths::components(all[l]));
    }
    sorting::law_sort_forgets_order(kept, directories(b).filter(keep));
}

/// The order in which a walk comes to the directories does not show in the workspaces and
/// the projects that a scan returns, if no two different paths have the same components.
pub proof fn law_bundles_forget_walk_order(a: Seq<WalkItem>, b: Seq<WalkItem>)
    requires
        directories(a).to_multiset() == directories(b).to_multiset(),
        forall|i: int, j: int|
            0 <= i < directories(a).len() && 0 <= j < directories(a).len() && paths::components(
                #[trigger] directories(a)[i],
            ) == paths::components(#[trigger] directories(a)[j]) ==> directories(a)[i]
                == directories(a)[j],
    ensures
        bundles(a, "xcworkspace"@) == bundles(b, "xcworkspace"@),
        bundles(a, "xcodeproj"@) == bundles(b, "xcodeproj"@),
{
    lemma_bundles_forget_order(a, b, "xcworkspace"@);
    lemma_bundles_forget_order(a, b, "xcodeproj"@);
}

/// What a scan returns is in the order of paths; and if the walk came to no two directories
/// with the same components, each path stands strictly before those that follow it, so
/// none stands there twice.
pub proof fn law_bundles_are_ascending(items: Seq<WalkItem>, ext: Seq<char>)
    ensures
        sorting::is_ascending(bundles(items, ext)),
        (forall|i: int, j: int|
            0 <= i < j < directories(items).len() ==> paths::components(
                #[trigger] directories(items)[i],
            ) != paths::components(#[trigger] directories(items)[j])) ==> forall|i: int, j: int|
            0 <= i < j < bundles(items, ext).len() ==> sorting::path_order(
                #[trigger] bundles(items, ext)[i],
                #[trigger] bundles(items, ext)[j],
            ) < 0,
{
    let keep = |path: Seq<u8>| is_bundle(path, ext);
    let all = directories(items);
    let kept = all.filter(keep);
    let found = bundles(items, ext);
    sorting::law_sorted_paths(kept);
    if forall|i: int, j: int|
        0 <= i < j < all.len() ==> paths::components(#[trigger] all[i]) != paths::components(
            #[trigger] all[j],
        ) {
        assert(all.no_duplicates()) by {
            assert forall|i: int, j: int|
                0 <= i < all.len() && 0 <= j < all.len() && i != j implies all[i] != all[j] by {
                if i < j {
                    assert(paths::components(all[i]) != paths::components(all[j]));
                } else {
                    assert(paths::components(all[j]) != paths::components(all[i]));
                }
            }
        }
        all.lemma_multiset_has_no_duplicates();
        lemma_filter_to_multiset(all, keep);
        assert forall|p: Seq<u8>| found.to_multiset().contains(p) implies found.to_multiset().count(
            p,
        ) == 1 by {
            assert(all.to_multiset().contains(p));
        }
        found.lemma_multiset_has_no_duplicates_conv();
        assert forall|i: int, j: int| 0 <= i < j < found.len() implies sorting::path_order(
            #[trigger] found[i],
            #[trigger] found[j],
        ) < 0 by {
            sorting::law_path_order(found[i], found[j]);
            lemma_bundles_contain(items, ext, found[i]);
            lemma_bundles_contain(items, ext, found[j]);
            assert(found.contains(found[i]) && found.contains(found[j]));
            let k = choose|k: int| 0 <= k < all.len() && all[k] == found[i];
            let l = choose|l: int| 0 <= l < all.len() && all[l] == found[j];
            assert(found[i] != found[j]);
            if k < l {
                assert(paths::components(all[k]) != paths::components(all[l]));
            } else {
                assert(paths::components(all[l]) != paths::components(all[k]));
            }
        }
    }
}

/// Two targets of the same kind, with the same bytes as path.
pub open spec fn same_target(a: XcodeTarget, b: XcodeTarget) -> bool {
    match (a, b) {
        (XcodeTarget::Workspace(p), XcodeTarget::Workspace(q)) => p@ == q@,
        (XcodeTarget::Project(p), XcodeTarget::Project(q)) => p@ == q@,
        _ => false,
    }
}

/// Two lists of the same targets, one by one.
pub open spec fn same_targets(a: Seq<XcodeTarget>, b: Seq<XcodeTarget>) -> bool {
    &&& a.len() == b.len()
    &&& forall|i: int| 0 <= i < a.len() ==> same_target(#[trigger] a[i], b[i])
}

/// The bytes of the path in a target.
pub open spec fn place(target: XcodeTarget) -> Seq<u8> {
    match target {
        XcodeTarget::Workspace(path) => path@,
        XcodeTarget::Project(path) => path@,
    }
}

/// A target tells its kind in one word and hands out the path that it was made with, and
/// its copies are the same target.
pub proof fn law_target_tells_what_it_is(
    target: &XcodeTarget,
    kind: &'static str,
    path: &Vec<u8>,
    copy: XcodeTarget,
)
    requires
        call_ensures(XcodeTarget::kind, (target,), kind),
        call_ensures(XcodeTarget::path, (target,), path),
        call_ensures(<XcodeTarget as Clone>::clone, (target,), copy),
    ensures
        *target is Workspace ==> kind@ == "workspace"@,
        *target is Project ==> kind@ == "project"@,
        path@ == place(*target),
        same_target(copy, *target),
{
}

/// A workspace on the command line is the target, whatever else is on it; without one, a
/// project is; and without either there is none.
pub proof fn law_command_line_decides(args: &Args, target: Option<XcodeTarget>)
    requires
        call_ensures(explicit_target, (args,), target),
    ensures
        match (args.workspace, args.project) {
            (Some(named), _) => target matches Some(XcodeTarget::Workspace(path)) && path@
                == named@,
            (None, Some(named)) => target matches Some(XcodeTarget::Project(path)) && path@
                == named@,
            (None, None) => target is None,
        },
{
}

/// The word for the kind of a target.
pub open spec fn word(target: XcodeTarget) -> Seq<char> {
    match target {
        XcodeTarget::Workspace(_) => "workspace"@,
        XcodeTarget::Project(_) => "project"@,
    }
}

/// The walk came to a directory with this path.
pub open spec fn came_by(items: Seq<WalkItem>, path: Seq<u8>) -> bool {
    exists|i: int|
        0 <= i < items.len() && (#[trigger] items[i] matches WalkItem::Entry { path: p, is_dir }
            && is_dir && p@ == path)
}

/// One of `list` has these bytes.
pub open spec fn has_path(list: Seq<Vec<u8>>, path: Seq<u8>) -> bool {
    exists|i: int| 0 <= i < list.len() && (#[trigger] list[i])@ == path
}

proof fn lemma_came_by(items: Seq<WalkItem>, path: Seq<u8>)
    ensures
        directories(items).contains(path) <==> came_by(items, path),
    decreases items.len(),
{
    reveal(Seq::filter_map);
    if items.len() > 0 {
        let init = items.drop_last();
        let last = items.len() - 1;
        let found = |item: WalkItem| directory(item);
        lemma_came_by(init, path);
        items.lemma_filter_map_take_succ(found, last);
        assert(items.take(last + 1) == items);
        assert(items.take(last) == init);
        let before = directories(init);
        if directories(items).contains(path) {
            let k = choose|k: int| 0 <= k < directories(items).len() && directories(items)[k]
                == path;
            if k < before.len() {
                assert(before[k] == path);
                let i = choose|i: int|
                    0 <= i < init.len() && (#[trigger] init[i] matches WalkItem::Entry {
                        path: p,
                        is_dir,
                    } && is_dir && p@ == path);
                assert(items[i] == init[i]);
            } else {
                assert(directory(items[last]) == Some(path));
                assert(items[last] matches WalkItem::Entry { path: p, is_dir } && is_dir && p@
                    == path);
            }
        }
        if came_by(items, path) {
            let i = choose|i: int|
                0 <= i < items.len() && (#[trigger] items[i] matches WalkItem::Entry {
                    path: p,
                    is_dir,
                } && is_dir && p@ == path);
            if i < last {
                assert(init[i] == items[i]);
                let k = choose|k: int| 0 <= k < before.len() && before[k] == path;
                assert(directories(items)[k] == path);
            } else {
                assert(directories(items)[before.len() as int] == path);
            }
        }
    }
}

proof fn lemma_has_path(list: Seq<Vec<u8>>, path: Seq<u8>)
    ensures
        has_path(list, path) <==> sorting::all_bytes(list).contains(path),
{
    let all = sorting::all_bytes(list);
    if has_path(list, path) {
        let i = choose|i: int| 0 <= i < list.len() && (#[trigger] list[i])@ == path;
        assert(all[i] == path);
    }
    if all.contains(path) {
        let i = choose|i: int| 0 <= i < all.len() && all[i] == path;
        assert(list[i]@ == path);
    }
}

proof fn lemma_bundle_names(path: Seq<u8>)
    ensures
        is_bundle(path, "xcworkspace"@) <==> paths::is_named(
            path,
            vstd::utf8::encode_utf8("xcworkspace"@),
        ),
        is_bundle(path, "xcodeproj"@) <==> paths::is_named(
            path,
            vstd::utf8::encode_utf8("xcodeproj"@),
        ),
{
    reveal_strlit("xcworkspace");
    reveal_strlit("xcodeproj");
    vstd::utf8::is_ascii_chars_encode_utf8("xcworkspace"@);
    vstd::utf8::is_ascii_chars_encode_utf8("xcodeproj"@);
    paths::lemma_extension_is_named(path, vstd::utf8::encode_utf8("xcworkspace"@));
    paths::lemma_extension_is_named(path, vstd::utf8::encode_utf8("xcodeproj"@));
}

/// A scan returns as workspaces exactly the directories that the walk came to whose names end
/// in `.xcworkspace`, and as projects exactly those whose names end in `.xcodeproj`, at
/// whatever depth; files and what could not be read are passed over.
pub proof fn law_scan_returns_all_bundles(
    items: &Vec<WalkItem>,
    found: (Vec<Vec<u8>>, Vec<Vec<u8>>),
    path: Seq<u8>,
)
    requires
        call_ensures(scan_for_xcode_targets, (items,), found),
    ensures
        has_path(found.0@, path) <==> came_by(items@, path) && paths::is_named(
            path,
            vstd::utf8::encode_utf8("xcworkspace"@),
        ),
        has_path(found.1@, path) <==> came_by(items@, path) && paths::is_named(
            path,
            vstd::utf8::encode_utf8("xcodeproj"@),
        ),
{
    lemma_has_path(found.0@, path);
    lemma_has_path(found.1@, path);
    lemma_bundles_contain(items@, "xcworkspace"@, path);
    lemma_bundles_contain(items@, "xcodeproj"@, path);
    lemma_came_by(items@, path);
    lemma_bundle_names(path);
}

/// However deep the walk comes to a directory, and whatever its name starts with, it is
/// returned as a project if `.xcodeproj` ends the name, and as a workspace if `.xcworkspace`
/// does.
pub proof fn law_bundles_count_at_any_depth(
    items: &Vec<WalkItem>,
    found: (Vec<Vec<u8>>, Vec<Vec<u8>>),
    i: int,
    path: Vec<u8>,
    front: Seq<u8>,
    name: Seq<u8>,
)
    requires
        call_ensures(scan_for_xcode_targets, (items,), found),
        0 <= i < items@.len(),
        items@[i] == (WalkItem::Entry { path, is_dir: true }),
        front.len() > 0 ==> front.last() == 0x2f,
        name.len() > 0,
        forall|k: int| 0 <= k < name.len() ==> #[trigger] name[k] != 0x2f,
    ensures
        path@ == front + name + vstd::utf8::encode_utf8(".xcodeproj"@) ==> has_path(
            found.1@,
            path@,
        ),
        path@ == front + name + vstd::utf8::encode_utf8(".xcworkspace"@) ==> has_path(
            found.0@,
            path@,
        ),
{
    law_scan_returns_all_bundles(items, found, path@);
    assert(came_by(items@, path@));
    reveal_strlit(".xcodeproj");
    reveal_strlit("xcodeproj");
    reveal_strlit(".xcworkspace");
    reveal_strlit("xcworkspace");
    vstd::utf8::is_ascii_chars_encode_utf8(".xcodeproj"@);
    vstd::utf8::is_ascii_chars_encode_utf8("xcodeproj"@);
    vstd::utf8::is_ascii_chars_encode_utf8(".xcworkspace"@);
    vstd::utf8::is_ascii_chars_encode_utf8("xcworkspace"@);
    let none = Seq::<u8>::empty();
    let project = vstd::utf8::encode_utf8("xcodeproj"@);
    let workspace = vstd::utf8::encode_utf8("xcworkspace"@);
    assert(".xcodeproj"@ == seq!['.'] + "xcodeproj"@);
    assert(".xcworkspace"@ == seq!['.'] + "xcworkspace"@);
    let dot_project = vstd::utf8::encode_utf8(".xcodeproj"@);
    let dot_workspace = vstd::utf8::encode_utf8(".xcworkspace"@);
    assert(dot_project == seq![0x2eu8] + project) by {
        assert forall|k: int| 0 <= k < dot_project.len() implies dot_project[k] == (seq![0x2eu8]
            + project)[k] by {
            assert(dot_project[k] == ".xcodeproj"@[k] as u8);
            if k > 0 {
                assert(project[k - 1] == "xcodeproj"@[k - 1] as u8);
            }
        }
    }
    assert(dot_workspace == seq![0x2eu8] + workspace) by {
        assert forall|k: int| 0 <= k < dot_workspace.len() implies dot_workspace[k] == (
        seq![0x2eu8] + workspace)[k] by {
            assert(dot_workspace[k] == ".xcworkspace"@[k] as u8);
            if k > 0 {
                assert(workspace[k - 1] == "xcworkspace"@[k - 1] as u8);
            }
        }
    }
    if path@ == front + name + dot_project {
        assert(path@ == front + (name + seq![0x2eu8] + project) + none);
        assert(paths::is_made_of(path@, front, name + seq![0x2eu8] + project, none));
    }
    if path@ == front + name + dot_workspace {
        assert(path@ == front + (name + seq![0x2eu8] + workspace) + none);
        assert(paths::is_made_of(path@, front, name + seq![0x2eu8] + workspace, none));
    }
}

/// What comes after must not come before: in an ascending list, of two paths the one that
/// comes first in the order of paths stands first.
proof fn lemma_stands_first(list: Seq<Seq<u8>>, i: int, j: int)
    requires
        sorting::is_ascending(list),
        0 <= i < list.len(),
        0 <= j < list.len(),
        sorting::path_order(list[i], list[j]) < 0,
    ensures
        i < j,
{
    sorting::law_path_order(list[i], list[j]);
    sorting::law_path_order(list[i], list[i]);
    if j < i {
        assert(sorting::path_order(list[j], list[i]) <= 0);
    }
}

/// Of two paths in what a scan returns, the one stands first that has the lower name, by
/// bytes, where they part ways; and a directory stands before what is below it.
pub proof fn law_scan_is_in_order(
    items: &Vec<WalkItem>,
    found: (Vec<Vec<u8>>, Vec<Vec<u8>>),
    i: int,
    j: int,
    front: Seq<u8>,
    x: Seq<u8>,
    y: Seq<u8>,
    k: int,
    below_x: Seq<u8>,
    below_y: Seq<u8>,
)
    requires
        call_ensures(scan_for_xcode_targets, (items,), found),
        0 <= i,
        0 <= j,
    ensures
        i < found.0@.len() && j < found.0@.len() && (sorting::parts_ways(
            found.0@[i]@,
            found.0@[j]@,
            front,
            x,
            y,
            k,
            below_x,
            below_y,
        ) || sorting::lies_below(found.0@[j]@, found.0@[i]@, x, below_x)) ==> i < j,
        i < found.1@.len() && j < found.1@.len() && (sorting::parts_ways(
            found.1@[i]@,
            found.1@[j]@,
            front,
            x,
            y,
            k,
            below_x,
            below_y,
        ) || sorting::lies_below(found.1@[j]@, found.1@[i]@, x, below_x)) ==> i < j,
{
    law_bundles_are_ascending(items@, "xcworkspace"@);
    law_bundles_are_ascending(items@, "xcodeproj"@);
    lemma_pair_in_order(found.0@, i, j, front, x, y, k, below_x, below_y);
    lemma_pair_in_order(found.1@, i, j, front, x, y, k, below_x, below_y);
}

proof fn lemma_pair_in_order(
    list: Seq<Vec<u8>>,
    i: int,
    j: int,
    front: Seq<u8>,
    x: Seq<u8>,
    y: Seq<u8>,
    k: int,
    below_x: Seq<u8>,
    below_y: Seq<u8>,
)
    requires
        sorting::is_ascending(sorting::all_bytes(list)),
        0 <= i,
        0 <= j,
    ensures
        i < list.len() && j < list.len() && (sorting::parts_ways(
            list[i]@,
            list[j]@,
            front,
            x,
            y,
            k,
            below_x,
            below_y,
        ) || sorting::lies_below(list[j]@, list[i]@, x, below_x)) ==> i < j,
{
    if i < list.len() && j < list.len() {
        let all = sorting::all_bytes(list);
        assert(all[i] == list[i]@ && all[j] == list[j]@);
        if sorting::parts_ways(list[i]@, list[j]@, front, x, y, k, below_x, below_y) {
            sorting::lemma_names_stand_by_bytes(
                list[i]@,
                list[j]@,
                front,
                x,
                y,
                k,
                below_x,
                below_y,
            );
            lemma_stands_first(all, i, j);
        } else if sorting::lies_below(list[j]@, list[i]@, x, below_x) {
            sorting::lemma_directory_stands_first(list[i]@, list[j]@, x, below_x);
            lemma_stands_first(all, i, j);
        }
    }
}

/// `then` is `found` with `path` put in at `at`.
pub open spec fn grows_at(
    then: Seq<Vec<u8>>,
    found: Seq<Vec<u8>>,
    path: Seq<u8>,
    at: int,
) -> bool {
    &&& 0 <= at <= found.len()
    &&& then.len() == found.len() + 1
    &&& then[at]@ == path
    &&& forall|i: int| 0 <= i < at ==> (#[trigger] then[i])@ == found[i]@
    &&& forall|i: int| at < i < then.len() ==> (#[trigger] then[i])@ == found[i - 1]@
}

/// `then` is `found` with `path` put in once, if `counts`, and otherwise `found` as it is.
pub open spec fn grows(
    then: Seq<Vec<u8>>,
    found: Seq<Vec<u8>>,
    path: Seq<u8>,
    counts: bool,
) -> bool {
    if counts {
        exists|at: int| #[trigger] grows_at(then, found, path, at)
    } else {
        same_paths(then, found)
    }
}

proof fn lemma_grows(then: Vec<Vec<u8>>, found: Vec<Vec<u8>>, path: Vec<u8>, counts: bool)
    requires
        sorting::all_bytes(then@) == if counts {
            sorting::insert_path(sorting::all_bytes(found@), path@)
        } else {
            sorting::all_bytes(found@)
        },
    ensures
        grows(then@, found@, path@, counts),
{
    if counts {
        let at = sorting::law_insertion_adds_one(found, path, then);
        assert(grows_at(then@, found@, path@, at));
    } else {
        lemma_same_paths(then@, found@);
    }
}

/// One more thing on the walk puts its path once into what a scan returns, if it is a
/// directory with a name of that kind, and otherwise changes nothing.
pub proof fn law_scan_counts_each_once(
    items: &Vec<WalkItem>,
    found: (Vec<Vec<u8>>, Vec<Vec<u8>>),
    item: WalkItem,
    more: &Vec<WalkItem>,
    then: (Vec<Vec<u8>>, Vec<Vec<u8>>),
)
    requires
        more@ == items@.push(item),
        call_ensures(scan_for_xcode_targets, (items,), found),
        call_ensures(scan_for_xcode_targets, (more,), then),
    ensures
        match item {
            WalkItem::Entry { path, is_dir } => {
                &&& grows(
                    then.0@,
                    found.0@,
                    path@,
                    is_dir && paths::is_named(path@, vstd::utf8::encode_utf8("xcworkspace"@)),
                )
                &&& grows(
                    then.1@,
                    found.1@,
                    path@,
                    is_dir && paths::is_named(path@, vstd::utf8::encode_utf8("xcodeproj"@)),
                )
            },
            WalkItem::Unreadable => same_paths(then.0@, found.0@) && same_paths(
                then.1@,
                found.1@,
            ),
        },
{
    let last = items@.len() as int;
    assert(more@.take(last) == items@);
    assert(more@.take(last + 1) == more@);
    lemma_bundles_step(more@, last, "xcworkspace"@);
    lemma_bundles_step(more@, last, "xcodeproj"@);
    match item {
        WalkItem::Entry { path, is_dir } => {
            lemma_bundle_names(path@);
            lemma_grows(
                then.0,
                found.0,
                path,
                is_dir && paths::is_named(path@, vstd::utf8::encode_utf8("xcworkspace"@)),
            );
            lemma_grows(
                then.1,
                found.1,
                path,
                is_dir && paths::is_named(path@, vstd::utf8::encode_utf8("xcodeproj"@)),
            );
        },
        WalkItem::Unreadable => {
            lemma_same_paths(then.0@, found.0@);
            lemma_same_paths(then.1@, found.1@);
        },
    }
}

/// Two lists of the same paths, one by one.
pub open spec fn same_paths(a: Seq<Vec<u8>>, b: Seq<Vec<u8>>) -> bool {
    &&& a.len() == b.len()
    &&& forall|i: int| 0 <= i < a.len() ==> (#[trigger] a[i])@ == b[i]@
}

proof fn lemma_same_paths(a: Seq<Vec<u8>>, b: Seq<Vec<u8>>)
    requires
        sorting::all_bytes(a) == sorting::all_bytes(b),
    ensures
        same_paths(a, b),
{
    let (all_a, all_b) = (sorting::all_bytes(a), sorting::all_bytes(b));
    assert(all_a.len() == a.len() && all_b.len() == b.len());
    assert forall|i: int| 0 <= i < a.len() implies (#[trigger] a[i])@ == b[i]@ by {
        assert(all_a[i] == a[i]@ && all_b[i] == b[i]@);
    }
}

/// A target of a list is a workspace with this path.
pub open spec fn offers_workspace(targets: Seq<XcodeTarget>, path: Seq<u8>) -> bool {
    exists|i: int|
        0 <= i < targets.len() && (#[trigger] targets[i] matches XcodeTarget::Workspace(p) && p@
            == path)
}

/// A target of a list is a project with this path.
pub open spec fn offers_project(targets: Seq<XcodeTarget>, path: Seq<u8>) -> bool {
    exists|i: int|
        0 <= i < targets.len() && (#[trigger] targets[i] matches XcodeTarget::Project(p) && p@
            == path)
}

proof fn lemma_offers(targets: Seq<XcodeTarget>, path: Seq<u8>)
    ensures
        offers_workspace(targets, path) <==> target_views(targets).contains(
            TargetView::Workspace(path),
        ),
        offers_project(targets, path) <==> target_views(targets).contains(
            TargetView::Project(path),
        ),
{
    let views = target_views(targets);
    if offers_workspace(targets, path) {
        let i = choose|i: int|
            0 <= i < targets.len() && (#[trigger] targets[i] matches XcodeTarget::Workspace(p)
                && p@ == path);
        assert(views[i] == TargetView::Workspace(path));
    }
    if offers_project(targets, path) {
        let i = choose|i: int|
            0 <= i < targets.len() && (#[trigger] targets[i] matches XcodeTarget::Project(p) && p@
                == path);
        assert(views[i] == TargetView::Project(path));
    }
    if views.contains(TargetView::Workspace(path)) {
        let i = choose|i: int| 0 <= i < views.len() && views[i] == TargetView::Workspace(path);
        assert(views[i] == targets[i]@);
        assert(targets[i] matches XcodeTarget::Workspace(p) && p@ == path);
    }
    if views.contains(TargetView::Project(path)) {
        let i = choose|i: int| 0 <= i < views.len() && views[i] == TargetView::Project(path);
        assert(views[i] == targets[i]@);
        assert(targets[i] matches XcodeTarget::Project(p) && p@ == path);
    }
}

/// Offered are exactly the directories that the walk came to whose names end in
/// `.xcodeproj`, as projects, and those whose names end in `.xcworkspace`, as workspaces, but
/// for paths that end in `.xcodeproj/project.xcworkspace`. The preference changes none of
/// this.
pub proof fn law_offered_are_all_bundles(
    items: &Vec<WalkItem>,
    prefer_workspace: bool,
    targets: Vec<XcodeTarget>,
    path: Seq<u8>,
)
    requires
        call_ensures(scan_targets_ordered, (items, prefer_workspace), targets),
    ensures
        offers_workspace(targets@, path) <==> came_by(items@, path) && paths::is_named(
            path,
            vstd::utf8::encode_utf8("xcworkspace"@),
        ) && !(exists|front: Seq<u8>|
            path == #[trigger] (front + vstd::utf8::encode_utf8(
                ".xcodeproj/project.xcworkspace"@,
            ))),
        offers_project(targets@, path) <==> came_by(items@, path) && paths::is_named(
            path,
            vstd::utf8::encode_utf8("xcodeproj"@),
        ),
{
    lemma_offers(targets@, path);
    law_scan_finds_all(items@, prefer_workspace, path);
    lemma_came_by(items@, path);
    lemma_bundle_names(path);
    let inner = vstd::utf8::encode_utf8(".xcodeproj/project.xcworkspace"@);
    if is_internal(path) {
        let front = path.take(path.len() - inner.len());
        assert(path == front + inner);
    }
    if exists|front: Seq<u8>| path == #[trigger] (front + inner) {
        let front = choose|front: Seq<u8>| path == #[trigger] (front + inner);
        assert(inner.is_suffix_of(front + inner));
    }
}

proof fn lemma_filter_ascending(paths: Seq<Seq<u8>>, keep: spec_fn(Seq<u8>) -> bool)
    requires
        sorting::is_ascending(paths),
    ensures
        sorting::is_ascending(paths.filter(keep)),
    decreases paths.len(),
{
    reveal(Seq::filter);
    if paths.len() > 0 {
        let init = paths.drop_last();
        assert forall|i: int, j: int| 0 <= i < j < init.len() implies sorting::path_order(
            #[trigger] init[i],
            #[trigger] init[j],
        ) <= 0 by {
            assert(sorting::path_order(paths[i], paths[j]) <= 0);
        }
        lemma_filter_ascending(init, keep);
        let kept = init.filter(keep);
        let all = paths.filter(keep);
        assert forall|i: int, j: int| 0 <= i < j < all.len() implies sorting::path_order(
            #[trigger] all[i],
            #[trigger] all[j],
        ) <= 0 by {
            if j < kept.len() {
                assert(sorting::path_order(kept[i], kept[j]) <= 0);
            } else {
                init.lemma_filter_contains_rev(keep, kept[i]);
                let k = choose|k: int| 0 <= k < init.len() && init[k] == kept[i];
                assert(sorting::path_order(paths[k], paths[paths.len() - 1]) <= 0);
            }
        }
    }
}

proof fn lemma_offered_in_order(items: Seq<WalkItem>, prefer_workspace: bool, i: int, j: int)
    requires
        0 <= i < j < found_targets(items, prefer_workspace).len(),
        found_targets(items, prefer_workspace)[i] is Workspace <==> found_targets(
            items,
            prefer_workspace,
        )[j] is Workspace,
    ensures
        sorting::path_order(
            found_targets(items, prefer_workspace)[i].path(),
            found_targets(items, prefer_workspace)[j].path(),
        ) <= 0,
{
    let found = found_targets(items, prefer_workspace);
    let workspaces = bundles(items, "xcworkspace"@);
    let projects = bundles(items, "xcodeproj"@);
    let keep = |path: Seq<u8>| !is_internal(path);
    law_bundles_are_ascending(items, "xcworkspace"@);
    law_bundles_are_ascending(items, "xcodeproj"@);
    lemma_filter_ascending(workspaces, keep);
    let kept = workspaces.filter(keep);
    let shift_w: int = if prefer_workspace {
        0
    } else {
        projects.len() as int
    };
    let shift_p: int = if prefer_workspace {
        kept.len() as int
    } else {
        0
    };
    assert forall|n: int| 0 <= n < kept.len() implies #[trigger] found[shift_w + n]
        == TargetView::Workspace(kept[n]) by {}
    assert forall|n: int| 0 <= n < projects.len() implies #[trigger] found[shift_p + n]
        == TargetView::Project(projects[n]) by {}
    if shift_p <= i < shift_p + projects.len() {
        assert(found[shift_p + (i - shift_p)] == TargetView::Project(projects[i - shift_p]));
    } else {
        assert(found[shift_w + (i - shift_w)] == TargetView::Workspace(kept[i - shift_w]));
    }
    if shift_p <= j < shift_p + projects.len() {
        assert(found[shift_p + (j - shift_p)] == TargetView::Project(projects[j - shift_p]));
        assert(sorting::path_order(projects[i - shift_p], projects[j - shift_p]) <= 0);
    } else {
        assert(found[shift_w + (j - shift_w)] == TargetView::Workspace(kept[j - shift_w]));
        assert(sorting::path_order(kept[i - shift_w], kept[j - shift_w]) <= 0);
    }
}

/// All targets of the preferred kind are offered before those of the other. Among targets of
/// one kind, the one comes first that has the lower name, by bytes, where the paths part
/// ways, and a directory before what is below it.
pub proof fn law_offers_are_in_order(
    items: &Vec<WalkItem>,
    prefer_workspace: bool,
    targets: Vec<XcodeTarget>,
    i: int,
    j: int,
    front: Seq<u8>,
    x: Seq<u8>,
    y: Seq<u8>,
    k: int,
    below_x: Seq<u8>,
    below_y: Seq<u8>,
)
    requires
        call_ensures(scan_targets_ordered, (items, prefer_workspace), targets),
        0 <= i < targets@.len(),
        0 <= j < targets@.len(),
    ensures
        prefer_workspace && targets@[i] is Workspace && targets@[j] is Project ==> i < j,
        !prefer_workspace && targets@[i] is Project && targets@[j] is Workspace ==> i < j,
        (targets@[i] is Workspace <==> targets@[j] is Workspace) && (sorting::parts_ways(
            place(targets@[i]),
            place(targets@[j]),
            front,
            x,
            y,
            k,
            below_x,
            below_y,
        ) || sorting::lies_below(place(targets@[j]), place(targets@[i]), x, below_x)) ==> i < j,
{
    let views = target_views(targets@);
    assert(views[i] == targets@[i]@ && views[j] == targets@[j]@);
    law_preference_only_moves(items@);
    let (a, b) = (place(targets@[i]), place(targets@[j]));
    sorting::law_path_order(a, b);
    sorting::law_path_order(a, a);
    if sorting::parts_ways(a, b, front, x, y, k, below_x, below_y) {
        sorting::lemma_names_stand_by_bytes(a, b, front, x, y, k, below_x, below_y);
    }
    if sorting::lies_below(b, a, x, below_x) {
        sorting::lemma_directory_stands_first(a, b, x, below_x);
    }
    if j < i && (targets@[i] is Workspace <==> targets@[j] is Workspace) {
        lemma_offered_in_order(items@, prefer_workspace, j, i);
    }
}

/// As many targets are offered as a scan returns projects, and workspaces outside of project
/// bundles: none is offered twice unless the walk came to it twice.
pub proof fn law_offers_count_each_once(
    items: &Vec<WalkItem>,
    prefer_workspace: bool,
    targets: Vec<XcodeTarget>,
    found: (Vec<Vec<u8>>, Vec<Vec<u8>>),
)
    requires
        call_ensures(scan_targets_ordered, (items, prefer_workspace), targets),
        call_ensures(scan_for_xcode_targets, (items,), found),
    ensures
        targets@.len() == found.1@.len() + found.0@.filter(
            |path: Vec<u8>|
                !vstd::utf8::encode_utf8(".xcodeproj/project.xcworkspace"@).is_suffix_of(path@),
        ).len(),
{
    let views = target_views(targets@);
    assert(views.len() == targets@.len());
    assert(sorting::all_bytes(found.1@).len() == found.1@.len());
    lemma_filter_length(found.0@);
}

proof fn lemma_filter_length(list: Seq<Vec<u8>>)
    ensures
        sorting::all_bytes(list).filter(|path: Seq<u8>| !is_internal(path)).len() == list.filter(
            |path: Vec<u8>|
                !vstd::utf8::encode_utf8(".xcodeproj/project.xcworkspace"@).is_suffix_of(path@),
        ).len(),
    decreases list.len(),
{
    reveal(Seq::filter);
    let all = sorting::all_bytes(list);
    if list.len() > 0 {
        lemma_filter_length(list.drop_last());
        assert(all.drop_last() == sorting::all_bytes(list.drop_last()));
        assert(all.last() == list.last()@);
    }
}

} // verus!
