use xcode_lsp_gen::commands::Tool;
use xcode_lsp_gen::failures::Failure;

#[test]
fn every_failure_has_its_message() {
    let cause = || "why".to_string();
    let cases = [
        (
            Failure::ToolMissing { tool: Tool::Xcodebuild, cause: cause() },
            "Required tool not found in PATH: xcodebuild: why",
        ),
        (
            Failure::ToolMissing { tool: Tool::BuildServer, cause: cause() },
            "Required tool not found in PATH: xcode-build-server: why",
        ),
        (Failure::NoTargets { root: b"src".to_vec() }, "No .xcworkspace or .xcodeproj found under src"),
        (Failure::ListNotRun { cause: cause() }, "Failed to run xcodebuild -list: why"),
        (Failure::ListFailed { stderr: "bad\n".to_string() }, "xcodebuild -list failed:\nbad\n"),
        (Failure::NoSchemes { path: vec![b'p', 0xff] }, "No schemes found for p\u{fffd}"),
        (Failure::Cancelled, "Cancelled"),
        (Failure::ConfigNotRun { cause: cause() }, "Failed to run xcode-build-server config: why"),
        (Failure::ConfigFailed, "xcode-build-server config failed"),
        (Failure::Terminal { cause: cause() }, "why"),
    ];
    for (failure, message) in cases {
        assert_eq!(failure.message(), message);
    }
}
