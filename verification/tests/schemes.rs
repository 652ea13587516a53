use xcode_lsp_gen::schemes::parse_schemes;

const LISTING: &str = "Information about project \"App\":
    Targets:
        App
        AppTests

    Build Configurations:
        Debug
        Release

    If no build configuration is specified and -scheme is not passed then \"Release\" is used.

    Schemes:
        App
        App Kit (beta)

";

#[test]
fn schemes_of_a_listing_are_found() {
    assert_eq!(parse_schemes(LISTING), ["App", "App Kit (beta)"]);
}

#[test]
fn a_text_without_a_header_has_no_schemes() {
    assert!(parse_schemes("").is_empty());
    assert!(parse_schemes("Targets:\n  App\n").is_empty());
    assert!(parse_schemes("  Schemes\n  App\n").is_empty());
    assert!(parse_schemes("My Schemes:\n  App\n").is_empty());
}

#[test]
fn a_blank_line_closes_the_list() {
    assert_eq!(parse_schemes("Schemes:\n  A\n \t \n  B\n"), ["A"]);
    assert!(parse_schemes("Schemes:\n\n  A\n").is_empty());
}

#[test]
fn an_unindented_heading_closes_the_list() {
    assert_eq!(parse_schemes("Schemes:\n  A\nTargets:\n  B\n"), ["A"]);
    assert_eq!(parse_schemes("Schemes:\n  A\nTargets: \t\n  B\n"), ["A"]);
}

#[test]
fn an_indented_name_may_end_in_a_colon() {
    assert_eq!(parse_schemes("Schemes:\n  A:\n  B\n"), ["A:", "B"]);
}

#[test]
fn an_unindented_name_without_a_colon_is_a_name() {
    assert_eq!(parse_schemes("Schemes:\nA\nB"), ["A", "B"]);
}

#[test]
fn a_repeated_header_is_passed_over() {
    assert_eq!(parse_schemes("Schemes:\n  A\nSchemes:\n  B\n"), ["A", "B"]);
    assert_eq!(parse_schemes("  Schemes:  \n  Schemes:\n  B\n"), ["B"]);
}

#[test]
fn only_the_first_list_is_read() {
    assert_eq!(parse_schemes("Schemes:\n  A\n\nSchemes:\n  B\n"), ["A"]);
}

#[test]
fn carriage_returns_do_not_stay() {
    assert_eq!(parse_schemes("Schemes:\r\n  A\r\n  B\r\n\r\n  C\r\n"), ["A", "B"]);
}

#[test]
fn names_are_trimmed_of_any_white_space() {
    assert_eq!(parse_schemes("\u{a0}Schemes:\n\u{3000}Größe App\u{2003}\n"), ["Größe App"]);
}

#[test]
fn a_listing_reads_back() {
    let names = ["App", "Kit: extra", "Schemes", "x y z"];
    let mut text = String::from("Above:\n  nothing\n\tSchemes:\n");
    for name in names {
        text.push_str("\t");
        text.push_str(name);
        text.push_str("\n");
    }
    text.push_str("\nbelow\n");
    assert_eq!(parse_schemes(&text), names);
}

#[test]
fn a_listing_reads_back_under_any_indents() {
    for head in ["", "\t", "    "] {
        for indent in ["", " ", "\t\t"] {
            let text = format!("Above:\n{}Schemes:\n{}App\n{}x y\n\n", head, indent, indent);
            assert_eq!(parse_schemes(&text), ["App", "x y"]);
        }
    }
    assert_eq!(parse_schemes("Schemes:\n\tKit:\n\tApp\n"), ["Kit:", "App"]);
    assert!(parse_schemes("Schemes:\nKit:\nApp\n").is_empty());
}
