//! Why a session ends without a configuration.

use crate::commands::Tool;
use crate::text;
use vstd::prelude::*;
use vstd::string::*;

verus! {

/// The reasons. A `cause` is the text of what went wrong outside.
pub enum Failure {
    /// A program is not in the search path.
    ToolMissing { tool: Tool, cause: String },
    /// The scan found nothing.
    NoTargets { root: Vec<u8> },
    /// `xcodebuild -list` could not be started.
    ListNotRun { cause: String },
    /// `xcodebuild -list` reported failure.
    ListFailed { stderr: String },
    /// The target has no schemes.
    NoSchemes { path: Vec<u8> },
    /// The user left.
    Cancelled,
    /// `xcode-build-server config` could not be started.
    ConfigNotRun { cause: String },
    /// `xcode-build-server config` reported failure.
    ConfigFailed,
    /// The terminal failed.
    Terminal { cause: String },
}

/// A failure as a value.
pub enum FailureView {
    ToolMissing { tool: Tool, cause: Seq<char> },
    NoTargets { root: Seq<u8> },
    ListNotRun { cause: Seq<char> },
    ListFailed { stderr: Seq<char> },
    NoSchemes { path: Seq<u8> },
    Cancelled,
    ConfigNotRun { cause: Seq<char> },
    ConfigFailed,
    Terminal { cause: Seq<char> },
}

impl View for Failure {
    type V = FailureView;

    open spec fn view(&self) -> FailureView {
        match *self {
            Failure::ToolMissing { tool, cause } => FailureView::ToolMissing {
                tool,
                cause: cause@,
            },
            Failure::NoTargets { root } => FailureView::NoTargets { root: root@ },
            Failure::ListNotRun { cause } => FailureView::ListNotRun { cause: cause@ },
            Failure::ListFailed { stderr } => FailureView::ListFailed { stderr: stderr@ },
            Failure::NoSchemes { path } => FailureView::NoSchemes { path: path@ },
            Failure::Cancelled => FailureView::Cancelled,
            Failure::ConfigNotRun { cause } => FailureView::ConfigNotRun { cause: cause@ },
            Failure::ConfigFailed => FailureView::ConfigFailed,
            Failure::Terminal { cause } => FailureView::Terminal { cause: cause@ },
        }
    }
}

impl FailureView {
    /// What the user is told.
    pub open spec fn message(self) -> Seq<char> {
        match self {
            FailureView::ToolMissing { tool, cause } => "Required tool not found in PATH: "@
                + tool.word() + ": "@ + cause,
            FailureView::NoTargets { root } => "No .xcworkspace or .xcodeproj found under "@
                + text::text_of(root),
            FailureView::ListNotRun { cause } => "Failed to run xcodebuild -list: "@ + cause,
            FailureView::ListFailed { stderr } => "xcodebuild -list failed:\n"@ + stderr,
            FailureView::NoSchemes { path } => "No schemes found for "@ + text::text_of(path),
            FailureView::Cancelled => "Cancelled"@,
            FailureView::ConfigNotRun { cause } => "Failed to run xcode-build-server config: "@
                + cause,
            FailureView::ConfigFailed => "xcode-build-server config failed"@,
            FailureView::Terminal { cause } => cause,
        }
    }
}

impl Failure {
    /// What the user is told.
    pub fn message(&self) -> (message: String)
        ensures
            message@ == self@.message(),
    {
        match self {
            Failure::ToolMissing { tool, cause } => {
                let mut message: String = "Required tool not found in PATH: ".to_owned();
                message.append(tool.name());
                message.append(": ");
                message.append(cause.as_str());
                message
            },
            Failure::NoTargets { root } => {
                let shown: String = text::read_text(root);
                text::join("No .xcworkspace or .xcodeproj found under ", shown.as_str())
            },
            Failure::ListNotRun { cause } => text::join(
                "Failed to run xcodebuild -list: ",
                cause.as_str(),
            ),
            Failure::ListFailed { stderr } => text::join(
                "xcodebuild -list failed:\n",
                stderr.as_str(),
            ),
            Failure::NoSchemes { path } => {
                let shown: String = text::read_text(path);
                text::join("No schemes found for ", shown.as_str())
            },
            Failure::Cancelled => "Cancelled".to_owned(),
            Failure::ConfigNotRun { cause } => text::join(
                "Failed to run xcode-build-server config: ",
                cause.as_str(),
            ),
            Failure::ConfigFailed => "xcode-build-server config failed".to_owned(),
            Failure::Terminal { cause } => cause.clone(),
        }
    }
}

/// Every failure is told with what it is about: the tool, the path or the text that came
/// with it, each behind the words for this kind of failure.
pub proof fn law_messages_tell_all(failure: &Failure, message: String)
    requires
        call_ensures(Failure::message, (failure,), message),
    ensures
        match *failure {
            Failure::ToolMissing { tool: Tool::Xcodebuild, cause } => message@
                == "Required tool not found in PATH: "@ + "xcodebuild"@ + ": "@ + cause@,
            Failure::ToolMissing { tool: Tool::BuildServer, cause } => message@
                == "Required tool not found in PATH: "@ + "xcode-build-server"@ + ": "@ + cause@,
            Failure::NoTargets { root } => message@
                == "No .xcworkspace or .xcodeproj found under "@ + text::text_of(root@),
            Failure::ListNotRun { cause } => message@ == "Failed to run xcodebuild -list: "@
                + cause@,
            Failure::ListFailed { stderr } => message@ == "xcodebuild -list failed:\n"@ + stderr@,
            Failure::NoSchemes { path } => message@ == "No schemes found for "@ + text::text_of(
                path@,
            ),
            Failure::Cancelled => message@ == "Cancelled"@,
            Failure::ConfigNotRun { cause } => message@
                == "Failed to run xcode-build-server config: "@ + cause@,
            Failure::ConfigFailed => message@ == "xcode-build-server config failed"@,
            Failure::Terminal { cause } => message@ == cause@,
        },
{
}

} // verus!
