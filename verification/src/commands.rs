//! The programs that do the work: how they are called and what their output means.

use crate::failures;
use crate::failures::Failure;
use crate::targets;
use crate::targets::XcodeTarget;
use crate::text;
use vstd::prelude::*;
use vstd::string::*;

verus! {

/// A program that has to be there.
#[derive(Clone, Copy, PartialEq, Eq, Structural)]
pub enum Tool {
    /// Lists schemes.
    Xcodebuild,
    /// Writes `buildServer.json`.
    BuildServer,
}

impl Tool {
    /// The name under which the program is found.
    pub open spec fn word(self) -> Seq<char> {
        match self {
            Tool::Xcodebuild => "xcodebuild"@,
            Tool::BuildServer => "xcode-build-server"@,
        }
    }

    /// The name under which the program is found.
    pub fn name(&self) -> (name: &'static str)
        ensures
            name@ == self.word(),
    {
        match self {
            Tool::Xcodebuild => "xcodebuild",
            Tool::BuildServer => "xcode-build-server",
        }
    }
}

/// One argument of a program.
pub enum Argument {
    Text(String),
    Path(Vec<u8>),
}

/// An argument as a value.
pub enum ArgumentView {
    Text(Seq<char>),
    Path(Seq<u8>),
}

impl View for Argument {
    type V = ArgumentView;

    open spec fn view(&self) -> ArgumentView {
        match *self {
            Argument::Text(text) => ArgumentView::Text(text@),
            Argument::Path(path) => ArgumentView::Path(path@),
        }
    }
}

/// A program and what it is called with.
pub struct Invocation {
    pub tool: Tool,
    pub arguments: Vec<Argument>,
}

/// An invocation as a value.
pub struct InvocationView {
    pub tool: Tool,
    pub arguments: Seq<ArgumentView>,
}

impl View for Invocation {
    type V = InvocationView;

    open spec fn view(&self) -> InvocationView {
        InvocationView {
            tool: self.tool,
            arguments: self.arguments@.map_values(|argument: Argument| argument@),
        }
    }
}

/// What a program left when it was done.
pub struct Output {
    pub success: bool,
    pub stdout: Vec<u8>,
    pub stderr: Vec<u8>,
}

/// An output as a value.
pub struct OutputView {
    pub success: bool,
    pub stdout: Seq<u8>,
    pub stderr: Seq<u8>,
}

impl View for Output {
    type V = OutputView;

    open spec fn view(&self) -> OutputView {
        OutputView { success: self.success, stdout: self.stdout@, stderr: self.stderr@ }
    }
}

/// The option that says of which kind the target is.
pub open spec fn target_option(target: targets::TargetView) -> Seq<char> {
    match target {
        targets::TargetView::Workspace(_) => "-workspace"@,
        targets::TargetView::Project(_) => "-project"@,
    }
}

/// `xcodebuild -list` for a target.
pub open spec fn list_call(target: targets::TargetView) -> InvocationView {
    InvocationView {
        tool: Tool::Xcodebuild,
        arguments: seq![
            ArgumentView::Text("-list"@),
            ArgumentView::Text(target_option(target)),
            ArgumentView::Path(target.path()),
        ],
    }
}

/// `xcode-build-server config` for a target and a scheme.
pub open spec fn config_call(target: targets::TargetView, scheme: Seq<char>) -> InvocationView {
    InvocationView {
        tool: Tool::BuildServer,
        arguments: seq![
            ArgumentView::Text("config"@),
            ArgumentView::Text(target_option(target)),
            ArgumentView::Path(target.path()),
            ArgumentView::Text("-scheme"@),
            ArgumentView::Text(scheme),
        ],
    }
}

fn option_of(target: &XcodeTarget) -> (option: String)
    ensures
        option@ == target_option(target@),
{
    match target {
        XcodeTarget::Workspace(_) => "-workspace".to_owned(),
        XcodeTarget::Project(_) => "-project".to_owned(),
    }
}

/// How the schemes of a target are asked for.
pub fn list_invocation(target: &XcodeTarget) -> (call: Invocation)
    ensures
        call@ == list_call(target@),
{
    let mut arguments: Vec<Argument> = Vec::new();
    arguments.push(Argument::Text("-list".to_owned()));
    arguments.push(Argument::Text(option_of(target)));
    arguments.push(Argument::Path(target.path().clone()));
    let call: Invocation = Invocation { tool: Tool::Xcodebuild, arguments };
    assert(call@.arguments == list_call(target@).arguments);
    call
}

/// How the configuration for a target and a scheme is asked for.
pub fn config_invocation(target: &XcodeTarget, scheme: &str) -> (call: Invocation)
    ensures
        call@ == config_call(target@, scheme@),
{
    let mut arguments: Vec<Argument> = Vec::new();
    arguments.push(Argument::Text("config".to_owned()));
    arguments.push(Argument::Text(option_of(target)));
    arguments.push(Argument::Path(target.path().clone()));
    arguments.push(Argument::Text("-scheme".to_owned()));
    arguments.push(Argument::Text(scheme.to_owned()));
    let call: Invocation = Invocation { tool: Tool::BuildServer, arguments };
    assert(call@.arguments == config_call(target@, scheme@).arguments);
    call
}

/// What a finished `xcodebuild -list` gives: its standard output as text, or the failure
/// that its standard error explains.
pub open spec fn listing_from(output: OutputView) -> Result<Seq<char>, failures::FailureView> {
    if output.success {
        Ok(text::text_of(output.stdout))
    } else {
        Err(failures::FailureView::ListFailed { stderr: text::text_of(output.stderr) })
    }
}

/// What a finished `xcodebuild -list` gives.
pub fn run_xcodebuild_list(output: &Output) -> (listing: Result<String, Failure>)
    ensures
        match listing {
            Ok(text) => listing_from(output@) == Ok::<_, failures::FailureView>(text@) && (
            vstd::utf8::valid_utf8(output@.stdout) ==> vstd::utf8::encode_utf8(text@)
                == output@.stdout),
            Err(failure) => listing_from(output@) == Err::<Seq<char>, _>(failure@),
        },
{
    if !output.success {
        let stderr: String = text::read_text(&output.stderr);
        return Err(Failure::ListFailed { stderr });
    }
    Ok(text::read_text(&output.stdout))
}

/// Both outputs of a program, one below the other, without white space round them.
pub open spec fn both(stdout: Seq<char>, stderr: Seq<char>) -> Seq<char> {
    text::trimmed(stdout + "\n"@ + stderr)
}

/// Both outputs of a program, one below the other, without white space round them.
pub fn join_outputs(stdout: &str, stderr: &str) -> (details: String)
    ensures
        details@ == both(stdout@, stderr@),
{
    let mut joined: String = stdout.to_owned();
    joined.append("\n");
    joined.append(stderr);
    text::trim(joined.as_str())
}

/// The argument is this text.
pub open spec fn says(argument: Argument, text: Seq<char>) -> bool {
    argument matches Argument::Text(t) && t@ == text
}

/// The argument is the path of `target`, byte by byte.
pub open spec fn points_to(argument: Argument, target: XcodeTarget) -> bool {
    argument matches Argument::Path(path) && path@ == targets::place(target)
}

/// `call` asks `xcodebuild` for the schemes of `target`, as the kind of target that it is.
pub open spec fn lists(call: Invocation, target: XcodeTarget) -> bool {
    &&& call.tool == Tool::Xcodebuild
    &&& call.arguments@.len() == 3
    &&& says(call.arguments@[0], "-list"@)
    &&& target is Workspace ==> says(call.arguments@[1], "-workspace"@)
    &&& target is Project ==> says(call.arguments@[1], "-project"@)
    &&& points_to(call.arguments@[2], target)
}

/// `call` asks `xcode-build-server` for the configuration of `target`, as the kind of target
/// that it is, with `scheme` behind `-scheme`.
pub open spec fn configures(call: Invocation, target: XcodeTarget, scheme: Seq<char>) -> bool {
    &&& call.tool == Tool::BuildServer
    &&& call.arguments@.len() == 5
    &&& says(call.arguments@[0], "config"@)
    &&& target is Workspace ==> says(call.arguments@[1], "-workspace"@)
    &&& target is Project ==> says(call.arguments@[1], "-project"@)
    &&& points_to(call.arguments@[2], target)
    &&& says(call.arguments@[3], "-scheme"@)
    &&& says(call.arguments@[4], scheme)
}

proof fn lemma_arguments(call: Invocation)
    ensures
        call@.arguments.len() == call.arguments@.len(),
        forall|i: int|
            0 <= i < call.arguments@.len() ==> #[trigger] call.arguments@[i]@
                == call@.arguments[i],
{
}

/// The tools go by their names.
pub proof fn law_tools_go_by_name(tool: &Tool, name: &'static str)
    requires
        call_ensures(Tool::name, (tool,), name),
    ensures
        *tool == Tool::Xcodebuild ==> name@ == "xcodebuild"@,
        *tool == Tool::BuildServer ==> name@ == "xcode-build-server"@,
{
}

/// A call with the value that `xcodebuild -list` for `target` has is one.
pub proof fn lemma_lists(call: Invocation, target: XcodeTarget)
    requires
        call@ == list_call(target@),
    ensures
        lists(call, target),
{
    lemma_arguments(call);
    assert(list_call(target@).arguments.len() == 3);
    assert(call.arguments@[0]@ == call@.arguments[0]);
    assert(call.arguments@[1]@ == call@.arguments[1]);
    assert(call.arguments@[2]@ == call@.arguments[2]);
}

/// A call with the value that `xcode-build-server config` for `target` and `scheme` has is
/// one.
pub proof fn lemma_configures(call: Invocation, target: XcodeTarget, scheme: Seq<char>)
    requires
        call@ == config_call(target@, scheme),
    ensures
        configures(call, target, scheme),
{
    lemma_arguments(call);
    assert(config_call(target@, scheme).arguments.len() == 5);
    assert(call.arguments@[0]@ == call@.arguments[0]);
    assert(call.arguments@[1]@ == call@.arguments[1]);
    assert(call.arguments@[2]@ == call@.arguments[2]);
    assert(call.arguments@[3]@ == call@.arguments[3]);
    assert(call.arguments@[4]@ == call@.arguments[4]);
}

/// The programs are called for the very target and the very scheme that are handed in.
pub proof fn law_calls_name_target_and_scheme(
    target: &XcodeTarget,
    scheme: &str,
    list: Invocation,
    config: Invocation,
)
    requires
        call_ensures(list_invocation, (target,), list),
        call_ensures(config_invocation, (target, scheme), config),
    ensures
        lists(list, *target),
        configures(config, *target, scheme@),
{
    lemma_lists(list, *target);
    lemma_configures(config, *target, scheme@);
}

/// A listing that went well gives the text of its standard output, and nothing of its
/// standard error; one that did not fails with the text of its standard error.
pub proof fn law_listing_is_standard_output(
    output: &Output,
    stdout: String,
    stderr: String,
    listing: Result<String, Failure>,
)
    requires
        call_ensures(run_xcodebuild_list, (output,), listing),
        call_ensures(text::read_text, (&output.stdout,), stdout),
        call_ensures(text::read_text, (&output.stderr,), stderr),
    ensures
        output.success ==> (listing matches Ok(text) && text@ == stdout@),
        !output.success ==> (listing matches Err(Failure::ListFailed { stderr: text }) && text@
            == stderr@),
{
}

/// The joined outputs are standard output, a line feed and standard error, with nothing but
/// white space cut off, and all white space cut off at either end.
pub proof fn law_outputs_are_joined(stdout: &str, stderr: &str, details: String) -> (cut: (
    Seq<char>,
    Seq<char>,
))
    requires
        call_ensures(join_outputs, (stdout, stderr), details),
    ensures
        stdout@ + "\n"@ + stderr@ == cut.0 + details@ + cut.1,
        forall|i: int| 0 <= i < cut.0.len() ==> text::is_blank(#[trigger] cut.0[i]),
        forall|i: int| 0 <= i < cut.1.len() ==> text::is_blank(#[trigger] cut.1[i]),
        details@.len() > 0 ==> !text::is_blank(details@.first()) && !text::is_blank(
            details@.last(),
        ),
{
    let all = stdout@ + "\n"@ + stderr@;
    let (from, to) = text::law_trimmed(all);
    let cut = (all.take(from), all.skip(to));
    assert(all == cut.0 + details@ + cut.1);
    assert forall|i: int| 0 <= i < cut.0.len() implies text::is_blank(#[trigger] cut.0[i]) by {
        text::law_blanks(all[i]);
        assert(text::is_white(all[i]));
    }
    assert forall|i: int| 0 <= i < cut.1.len() implies text::is_blank(#[trigger] cut.1[i]) by {
        text::law_blanks(all[to + i]);
        assert(text::is_white(all[to + i]));
    }
    if from < to {
        text::law_blanks(all[from]);
        text::law_blanks(all[to - 1]);
    }
    cut
}

} // verus!
