//! What the program is asked to do.

use vstd::prelude::*;

verus! {

/// The command line.
pub struct Args {
    /// Directory to scan.
    pub dir: Vec<u8>,
    /// List workspaces before projects.
    pub prefer_workspace: bool,
    /// Take the first target and the first scheme without asking.
    pub non_interactive: bool,
    /// The scheme to use, in place of listing and picking.
    pub scheme: Option<String>,
    /// The workspace to use, in place of scanning.
    pub workspace: Option<Vec<u8>>,
    /// The project to use, in place of scanning.
    pub project: Option<Vec<u8>>,
}

/// The command line as values.
pub struct ArgsView {
    pub dir: Seq<u8>,
    pub prefer_workspace: bool,
    pub non_interactive: bool,
    pub scheme: Option<Seq<char>>,
    pub workspace: Option<Seq<u8>>,
    pub project: Option<Seq<u8>>,
}

/// The bytes of a path that may not be there.
pub open spec fn bytes_of(path: Option<Vec<u8>>) -> Option<Seq<u8>> {
    match path {
        Some(path) => Some(path@),
        None => None,
    }
}

/// The characters of a text that may not be there.
pub open spec fn chars_of(text: Option<String>) -> Option<Seq<char>> {
    match text {
        Some(text) => Some(text@),
        None => None,
    }
}

impl View for Args {
    type V = ArgsView;

    open spec fn view(&self) -> ArgsView {
        ArgsView {
            dir: self.dir@,
            prefer_workspace: self.prefer_workspace,
            non_interactive: self.non_interactive,
            scheme: chars_of(self.scheme),
            workspace: bytes_of(self.workspace),
            project: bytes_of(self.project),
        }
    }
}

} // verus!
