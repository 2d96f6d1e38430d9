// Grouping, block text and classification laws checked on concrete values.

use bx::classify::{
    build_patterns, classify, collect_blocks, group_blocks, parse_location, severity_from_name,
    ContextKind, ErrorBlock, PatternError, Severity, SourceLoc, UserPattern,
};

fn s(x: &str) -> String {
    x.to_string()
}

#[test]
fn group_note_before_any_block_is_dropped() {
    let input = vec![
        (s("note: `#[warn(unused_variables)]` on by default"), Some(Severity::Note)),
        (s("ctx"), None),
        (s("x"), Some(Severity::Error)),
        (s("n"), Some(Severity::Note)),
    ];
    let blocks = group_blocks(&input, 3);
    assert_eq!(blocks.len(), 1);
    assert_eq!(blocks[0].severity, Severity::Error);
    assert_eq!(blocks[0].context, vec![(ContextKind::Note, s("n"))]);
    assert_eq!(blocks[0].context_limit, 3);
    assert!(group_blocks(&input[..2], 3).is_empty());
}

#[test]
fn linker_summary_is_linker() {
    let p = build_patterns(&[]).unwrap();
    assert_eq!(classify("collect2: error: ld returned 1 exit status", &p), Some(&Severity::Linker));
}

#[test]
fn group_later_notes_never_open_blocks() {
    let input = vec![
        (s("x"), Some(Severity::Error)),
        (s("n1"), Some(Severity::Note)),
        (s("n2"), Some(Severity::Note)),
        (s("y"), Some(Severity::Warning)),
        (s("n3"), Some(Severity::Note)),
    ];
    let blocks = group_blocks(&input, 10);
    assert_eq!(blocks.len(), 2);
    assert_eq!(blocks[0].context, vec![(ContextKind::Note, s("n1")), (ContextKind::Note, s("n2"))]);
    assert_eq!(blocks[1].context, vec![(ContextKind::Note, s("n3"))]);
}

#[test]
fn group_keeps_every_classified_line() {
    // 5 classified lines after the first opener: 3 blocks + 2 notes; the
    // leading note has nothing to attach to.
    let input = vec![
        (s("n0"), Some(Severity::Note)),
        (s("noise"), None),
        (s("e1"), Some(Severity::Error)),
        (s("n"), Some(Severity::Note)),
        (s("w"), Some(Severity::Warning)),
        (s("src/a.c:900: far"), None),
        (s("b"), Some(Severity::Build)),
        (s("n"), Some(Severity::Note)),
    ];
    let blocks = group_blocks(&input, 10);
    let notes: usize = blocks
        .iter()
        .map(|b| b.context.iter().filter(|(k, _)| *k == ContextKind::Note).count())
        .sum();
    assert_eq!(blocks.len() + notes, 5);
}

#[test]
fn group_leading_unclassified_lines_are_dropped() {
    let input = vec![(s("a"), None), (s("b"), None), (s("e"), Some(Severity::Error)), (s("c"), None)];
    let blocks = group_blocks(&input, 1);
    let held: usize = blocks.iter().map(|b| 1 + b.context.len()).sum();
    assert_eq!(held + 2, input.len());
}

#[test]
fn group_location_jump_stops_context_but_not_notes() {
    let input = vec![
        (s("src/a.c:10:1: error: x"), Some(Severity::Error)),
        (s("src/a.c:12:1: near"), None),
        (s("src/a.c:15:1: exactly five away"), None),
        (s("src/a.c:16:1: six away"), None),
        (s("after the jump"), None),
        (s("src/b.c:3: note: still attached"), Some(Severity::Note)),
    ];
    let blocks = group_blocks(&input, 10);
    assert_eq!(blocks.len(), 1);
    assert_eq!(
        blocks[0].context,
        vec![
            (ContextKind::Context, s("src/a.c:12:1: near")),
            (ContextKind::Context, s("src/a.c:15:1: exactly five away")),
            (ContextKind::Note, s("src/b.c:3: note: still attached")),
        ]
    );
}

#[test]
fn group_trigger_location_is_recorded() {
    let input = vec![(s("src/a.c:10:1: error: x"), Some(Severity::Error))];
    let blocks = group_blocks(&input, 10);
    assert_eq!(blocks[0].location, Some(SourceLoc { file: s("src/a.c"), line: 10 }));
}

#[test]
fn collect_handles_crlf_and_missing_final_newline() {
    let p = build_patterns(&[]).unwrap();
    let blocks = collect_blocks("src/a.c:1:1: error: x\r\n  detail\r\nlast line", 10, &p);
    assert_eq!(blocks.len(), 1);
    assert_eq!(blocks[0].trigger, "src/a.c:1:1: error: x");
    assert_eq!(
        blocks[0].context,
        vec![(ContextKind::Context, s("  detail")), (ContextKind::Context, s("last line"))]
    );
}

#[test]
fn collect_empty_input_has_no_blocks() {
    let p = build_patterns(&[]).unwrap();
    assert!(collect_blocks("", 10, &p).is_empty());
    assert!(collect_blocks("\n\n", 10, &p).is_empty());
}

#[test]
fn full_text_is_display_lines_joined() {
    let block = ErrorBlock {
        trigger: s("a.c:1: error: bad   "),
        severity: Severity::Error,
        location: None,
        context_limit: 10,
        context: vec![(ContextKind::Context, s("  code\t")), (ContextKind::Note, s("a.c:2: note: n"))],
    };
    assert_eq!(block.full_text(), "a.c:1: error: bad\n       code\n  >> a.c:2: note: n");
    assert_eq!(block.display_lines().join("\n"), block.full_text());
}

#[test]
fn full_text_without_context_is_trimmed_trigger() {
    let block = ErrorBlock {
        trigger: s("x \u{3000}"),
        severity: Severity::Build,
        location: None,
        context_limit: 0,
        context: vec![],
    };
    assert_eq!(block.full_text(), "x");
    assert_eq!(block.display_lines(), vec![s("x")]);
}

#[test]
fn user_patterns_never_override_builtins() {
    let user = vec![UserPattern { pattern: s("error"), severity: s("note") }];
    let p = build_patterns(&user).unwrap();
    assert_eq!(classify("src/a.c:1: error: x", &p), Some(&Severity::Error));
    assert_eq!(classify("some error here", &p), Some(&Severity::Note));
}

#[test]
fn unknown_severity_is_reported() {
    let user = vec![UserPattern { pattern: s("X"), severity: s("fatal") }];
    match build_patterns(&user) {
        Err(PatternError::UnknownSeverity { severity }) => assert_eq!(severity, "fatal"),
        other => panic!("unexpected: {:?}", other.map(|v| v.len())),
    }
}

#[test]
fn invalid_regex_is_reported_before_severity() {
    let user = vec![
        UserPattern { pattern: s("ok"), severity: s("warning") },
        UserPattern { pattern: s("(unclosed"), severity: s("nonsense") },
    ];
    match build_patterns(&user) {
        Err(PatternError::InvalidRegex { pattern, message }) => {
            assert_eq!(pattern, "(unclosed");
            assert_eq!(message, regex::Regex::new("(unclosed").unwrap_err().to_string());
        }
        other => panic!("unexpected: {:?}", other.map(|v| v.len())),
    }
}

#[test]
fn pattern_table_is_builtins_then_user() {
    let user = vec![UserPattern { pattern: s("MINE"), severity: s("linker") }];
    let base = build_patterns(&[]).unwrap();
    let p = build_patterns(&user).unwrap();
    assert_eq!(p.len(), base.len() + 1);
    assert_eq!(p[base.len()].source(), "MINE");
    assert_eq!(p[base.len()].severity(), Severity::Linker);
    assert_eq!(p[0].source(), base[0].source());
}

#[test]
fn severity_names() {
    assert_eq!(severity_from_name("error"), Some(Severity::Error));
    assert_eq!(severity_from_name("linker"), Some(Severity::Linker));
    assert_eq!(severity_from_name("build"), Some(Severity::Build));
    assert_eq!(severity_from_name("warning"), Some(Severity::Warning));
    assert_eq!(severity_from_name("note"), Some(Severity::Note));
    assert_eq!(severity_from_name("Error"), None);
    assert_eq!(severity_from_name(""), None);
}

#[test]
fn labels_and_error_kinds() {
    assert_eq!(Severity::Error.label(), "ERR ");
    assert_eq!(Severity::Linker.label(), "LINK");
    assert_eq!(Severity::Build.label(), "BLD ");
    assert_eq!(Severity::Warning.label(), "WARN");
    assert_eq!(Severity::Note.label(), "NOTE");
    assert!(Severity::Error.is_error() && Severity::Linker.is_error() && Severity::Build.is_error());
    assert!(!Severity::Warning.is_error() && !Severity::Note.is_error());
}

#[test]
fn location_edge_cases() {
    assert_eq!(parse_location(":12: x"), None);
    assert_eq!(parse_location("abcdefghijklmnopqrstuvwxyz:12: x"), None);
    assert_eq!(
        parse_location("abcdefghijklmnopqrst:12"),
        Some(SourceLoc { file: s("abcdefghijklmnopqrst"), line: 12 })
    );
    // 11 two-byte characters are 22 bytes: a word, not a path.
    assert_eq!(parse_location("ééééééééééé:3: x"), None);
    assert_eq!(parse_location("a.rs: +7 :x"), Some(SourceLoc { file: s("a.rs"), line: 7 }));
    assert_eq!(parse_location("a.rs:4294967295:"), Some(SourceLoc { file: s("a.rs"), line: 4294967295 }));
    assert_eq!(parse_location("a.rs:4294967296:"), None);
    assert_eq!(parse_location("a.rs:-1:"), None);
    assert_eq!(parse_location("a.rs::"), None);
    assert_eq!(parse_location("no colon here"), None);
}

#[test]
fn severity_colors() {
    assert_eq!(Severity::Error.color(), (0xb8, 0x6b, 0x65));
    assert_eq!(Severity::Linker.color(), (0xc9, 0x88, 0x80));
    assert_eq!(Severity::Build.color(), (0xcc, 0x9e, 0x54));
    assert_eq!(Severity::Warning.color(), (0x86, 0x9c, 0x7a));
    assert_eq!(Severity::Note.color(), (0x56, 0x70, 0x6b));
}

#[test]
fn blocks_hold_input_lines_in_order() {
    let input = vec![
        (s("pre"), None),
        (s("src/a.c:1:1: error: one"), Some(Severity::Error)),
        (s("  ctx a"), None),
        (s("src/z.c:9:9: elsewhere"), None),
        (s("dropped"), None),
        (s("n"), Some(Severity::Note)),
        (s("src/b.c:2:2: warning: two"), Some(Severity::Warning)),
        (s("  ctx b"), None),
    ];
    let blocks = group_blocks(&input, 10);
    let mut flat: Vec<(String, Option<Severity>)> = Vec::new();
    for b in &blocks {
        flat.push((b.trigger.clone(), Some(b.severity)));
        for (k, l) in &b.context {
            let sev = if *k == ContextKind::Note { Some(Severity::Note) } else { None };
            flat.push((l.clone(), sev));
        }
    }
    let mut it = input.iter();
    for x in &flat {
        assert!(it.any(|y| y == x), "{:?} out of order", x);
    }
    assert_eq!(flat.len(), 5);
}
