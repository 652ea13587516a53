use xcode_lsp_gen::commands::{
    config_invocation, join_outputs, list_invocation, run_xcodebuild_list, Argument, Invocation,
    Output, Tool,
};
use xcode_lsp_gen::failures::Failure;
use xcode_lsp_gen::targets::XcodeTarget;

fn words(call: &Invocation) -> Vec<String> {
    let mut words = vec![call.tool.name().to_string()];
    for argument in &call.arguments {
        words.push(match argument {
            Argument::Text(text) => text.clone(),
            Argument::Path(path) => format!("<{}>", String::from_utf8(path.clone()).unwrap()),
        });
    }
    words
}

#[test]
fn schemes_are_listed_by_xcodebuild() {
    let workspace = XcodeTarget::Workspace(b"A B.xcworkspace".to_vec());
    let project = XcodeTarget::Project(b"P".to_vec());
    assert_eq!(words(&list_invocation(&workspace)), ["xcodebuild", "-list", "-workspace", "<A B.xcworkspace>"]);
    assert_eq!(words(&list_invocation(&project)), ["xcodebuild", "-list", "-project", "<P>"]);
}

#[test]
fn the_build_server_is_configured_for_a_scheme() {
    let workspace = XcodeTarget::Workspace(b"W".to_vec());
    let project = XcodeTarget::Project(b"P".to_vec());
    assert_eq!(
        words(&config_invocation(&workspace, "My App")),
        ["xcode-build-server", "config", "-workspace", "<W>", "-scheme", "My App"]
    );
    assert_eq!(
        words(&config_invocation(&project, "")),
        ["xcode-build-server", "config", "-project", "<P>", "-scheme", ""]
    );
}

#[test]
fn a_path_is_handed_on_byte_by_byte() {
    let call = list_invocation(&XcodeTarget::Project(vec![0xff, b'/', 0x00]));
    assert!(matches!(&call.arguments[2], Argument::Path(path) if path == &vec![0xff, b'/', 0x00]));
}

#[test]
fn a_listing_that_went_well_is_its_standard_output() {
    let output = Output { success: true, stdout: "é\n".as_bytes().to_vec(), stderr: b"noise".to_vec() };
    assert!(matches!(run_xcodebuild_list(&output), Ok(text) if text == "é\n"));
    let broken = Output { success: true, stdout: vec![b'a', 0xff, b'b'], stderr: Vec::new() };
    assert!(matches!(run_xcodebuild_list(&broken), Ok(text) if text == "a\u{fffd}b"));
}

#[test]
fn a_listing_that_failed_is_explained_by_its_standard_error() {
    let output = Output { success: false, stdout: b"x".to_vec(), stderr: vec![b'n', b'o', 0xc3] };
    match run_xcodebuild_list(&output) {
        Err(Failure::ListFailed { stderr }) => assert_eq!(stderr, "no\u{fffd}"),
        _ => panic!("not that failure"),
    }
}

#[test]
fn outputs_are_joined_and_trimmed() {
    assert_eq!(join_outputs("out\n", "err\n"), "out\n\nerr");
    assert_eq!(join_outputs("", "err"), "err");
    assert_eq!(join_outputs("out", ""), "out");
    assert_eq!(join_outputs(" \n", "\t"), "");
}
