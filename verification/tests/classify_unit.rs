// Unit tests of classification, location parsing and block grouping.

use bx::classify::{
    build_patterns, classify, collect_blocks, parse_location, ContextKind, ErrorBlock, Pattern,
    Severity, SourceLoc, UserPattern,
};
fn patterns() -> Vec<Pattern> {
    build_patterns(&[]).expect("built-in patterns are valid")
}

#[test]
fn classify_classifies_gcc_error() {
    let p = patterns();
    assert_eq!(
        classify("src/foo.cpp:42:5: error: use of undeclared identifier 'x'", &p),
        Some(&Severity::Error)
    );
}

#[test]
fn classify_classifies_clang_fatal_error() {
    let p = patterns();
    assert_eq!(
        classify("src/foo.cpp:1:10: fatal error: 'missing.h' file not found", &p),
        Some(&Severity::Error)
    );
}

#[test]
fn classify_classifies_linker_undefined_ref() {
    let p = patterns();
    assert_eq!(
        classify("/usr/bin/ld: undefined reference to `main'", &p),
        Some(&Severity::Linker)
    );
}

#[test]
fn classify_classifies_ninja_failed() {
    let p = patterns();
    assert_eq!(
        classify("FAILED: CMakeFiles/bx.dir/src/main.cpp.o", &p),
        Some(&Severity::Build)
    );
}

#[test]
fn classify_classifies_warning() {
    let p = patterns();
    assert_eq!(
        classify("src/foo.cpp:10:3: warning: unused variable 'x'", &p),
        Some(&Severity::Warning)
    );
}

#[test]
fn classify_classifies_note() {
    let p = patterns();
    assert_eq!(
        classify("src/foo.cpp:8:1: note: declared here", &p),
        Some(&Severity::Note)
    );
}

#[test]
fn classify_noise_returns_none() {
    let p = patterns();
    assert_eq!(classify("[ 42%] Building CXX object ...", &p), None);
    assert_eq!(classify("-- Configuring done", &p), None);
    assert_eq!(classify("", &p), None);
}

#[test]
fn classify_parses_gcc_location() {
    assert_eq!(
        parse_location("src/foo.cpp:42:15: error: bad"),
        Some(SourceLoc { file: "src/foo.cpp".into(), line: 42 })
    );
}

#[test]
fn classify_parses_location_without_column() {
    assert_eq!(
        parse_location("src/foo.cpp:42: error: bad"),
        Some(SourceLoc { file: "src/foo.cpp".into(), line: 42 })
    );
}

#[test]
fn classify_no_location_for_noise() {
    assert_eq!(parse_location("[ 42%] Building"), None);
    assert_eq!(parse_location("ninja: build stopped"), None);
}

#[test]
fn classify_single_error_no_context() {
    let p = patterns();
    let blocks = collect_blocks("src/foo.cpp:1:1: error: bad\n", 10, &p);
    assert_eq!(blocks.len(), 1);
    assert_eq!(blocks[0].severity, Severity::Error);
    assert!(blocks[0].context.is_empty());
}

#[test]
fn classify_attaches_context_lines() {
    let p = patterns();
    let input = "src/foo.cpp:1:1: error: bad\n   1 | bad_code();\n     | ^~~~~~~~~~\n";
    let blocks = collect_blocks(input, 10, &p);
    assert_eq!(blocks[0].context.len(), 2);
    assert_eq!(blocks[0].context[0].0, ContextKind::Context);
}

#[test]
fn classify_note_attaches_to_previous_block() {
    let p = patterns();
    let input = "src/foo.cpp:42:1: error: no matching function\nsrc/foo.cpp:38:1: note: candidate declared here\n";
    let blocks = collect_blocks(input, 10, &p);
    assert_eq!(blocks.len(), 1);
    assert_eq!(blocks[0].context[0].0, ContextKind::Note);
}

#[test]
fn classify_two_errors_become_two_blocks() {
    let p = patterns();
    let input = "src/foo.cpp:1:1: error: first\nsrc/bar.cpp:2:1: error: second\n";
    let blocks = collect_blocks(input, 10, &p);
    assert_eq!(blocks.len(), 2);
}

#[test]
fn classify_location_aware_stops_at_different_file() {
    let p = patterns();
    let input = "src/foo.cpp:1:1: error: bad\nother/bar.cpp:50:1: unclassified line\n";
    let blocks = collect_blocks(input, 10, &p);
    assert_eq!(blocks[0].context.len(), 0);
}

#[test]
fn classify_location_aware_stops_far_away_same_file() {
    let p = patterns();
    let input = "src/foo.cpp:1:1: error: bad\nsrc/foo.cpp:100:1: far away\n";
    let blocks = collect_blocks(input, 10, &p);
    assert_eq!(blocks[0].context.len(), 0);
}

#[test]
fn classify_location_aware_keeps_nearby_context() {
    let p = patterns();
    let input = "src/foo.cpp:10:1: error: bad\nsrc/foo.cpp:11:1: nearby detail\n";
    let blocks = collect_blocks(input, 10, &p);
    assert_eq!(blocks[0].context.len(), 1);
}

#[test]
fn classify_full_text_includes_context() {
    let block = ErrorBlock {
        trigger:  "foo.cpp:1: error: bad".into(),
        severity: Severity::Error,
        location: None,
        context_limit: 10,
        context:  vec![
            (ContextKind::Context, "   1 | bad_code()".into()),
            (ContextKind::Note,    "foo.cpp:5: note: here".into()),
        ],
    };
    let text = block.full_text();
    assert!(text.contains("foo.cpp:1: error: bad"));
    assert!(text.contains("   1 | bad_code()"));
    assert!(text.contains("  >> foo.cpp:5: note: here"));
}

#[test]
fn classify_user_pattern_extends_table() {
    let user = vec![UserPattern { pattern: r"MY_CUSTOM_ERROR".into(), severity: "error".into() }];
    let p = build_patterns(&user).unwrap();
    assert_eq!(classify("MY_CUSTOM_ERROR: went wrong", &p), Some(&Severity::Error));
}

#[test]
fn classify_invalid_user_pattern_returns_error() {
    let user = vec![UserPattern { pattern: r"[invalid".into(), severity: "error".into() }];
    assert!(build_patterns(&user).is_err());
}
