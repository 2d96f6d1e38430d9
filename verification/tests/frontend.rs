// Command line, saved commands, plain report and navigation.

use bx::classify::{ContextKind, ErrorBlock, Severity};
use bx::cli::{context_limit, parse_args};
use bx::nav::{Focus, Key, Navigator, Outcome};
use bx::report::{list_item_text, plain_report, shown, status_text};
use bx::paths::{config_file_path, git_root_stop, saved_command_file};
use bx::saved::{format_saved_command, parse_saved_command};

fn words(x: &[&str]) -> Vec<String> {
    x.iter().map(|w| w.to_string()).collect()
}

fn block(trigger: &str, severity: Severity, context: Vec<(ContextKind, &str)>) -> ErrorBlock {
    ErrorBlock {
        trigger: trigger.to_string(),
        severity,
        location: None,
        context_limit: 10,
        context: context.into_iter().map(|(k, l)| (k, l.to_string())).collect(),
    }
}

#[test]
fn args_flags_and_command() {
    let a = parse_args(&words(&["--tui", "-v", "cmake", "--warnings", "--build", "-p", "--local"]));
    assert!(a.tui && a.verbose && a.warnings && a.progress && a.local);
    assert!(!a.save && !a.help);
    assert_eq!(a.cmd, words(&["cmake", "--build"]));
    assert_eq!(a.context, 0);
}

#[test]
fn args_context_value() {
    assert_eq!(parse_args(&words(&["--context", "15", "make"])).context, 15);
    let a = parse_args(&words(&["--context", "many", "make"]));
    assert_eq!(a.context, 10);
    assert_eq!(a.cmd, words(&["make"]));
    assert_eq!(parse_args(&words(&["--context"])).context, 10);
}

#[test]
fn args_help_stops() {
    let a = parse_args(&words(&["make", "-h", "--tui"]));
    assert!(a.help);
    assert!(!a.tui);
    assert!(parse_args(&words(&["--help"])).help);
}

#[test]
fn context_limit_precedence() {
    assert_eq!(context_limit(4, Some(7)), 4);
    assert_eq!(context_limit(0, Some(7)), 7);
    assert_eq!(context_limit(0, None), 10);
}

#[test]
fn saved_command_round_trip() {
    let cmd = words(&["cmake", "--build", "", "--preset", "debug"]);
    let text = format_saved_command("/home/me/proj", &cmd);
    assert_eq!(text, "/home/me/proj\ncmake\n--build\n\n--preset\ndebug");
    let saved = parse_saved_command(&text).unwrap();
    assert_eq!(saved.dir.as_deref(), Some("/home/me/proj"));
    assert_eq!(saved.cmd, cmd);
}

#[test]
fn saved_command_old_format_and_empty() {
    let saved = parse_saved_command("make\n-j4\n").unwrap();
    assert_eq!(saved.dir, None);
    assert_eq!(saved.cmd, words(&["make", "-j4"]));
    assert!(parse_saved_command("").is_none());
    assert!(parse_saved_command("\nmake").is_none());
    assert!(parse_saved_command("~/proj\n").is_none());
}

#[test]
fn report_without_blocks() {
    assert_eq!(plain_report(&[], false), vec!["bx: no errors or warnings found.".to_string()]);
    let w = vec![block("a: warning: w", Severity::Warning, vec![])];
    assert_eq!(
        plain_report(&w, false),
        vec!["bx: no errors. 1 warning(s) — pass --warnings to show them.".to_string()]
    );
}

#[test]
fn report_with_blocks() {
    let bs = vec![
        block("a.c:1: error: bad  ", Severity::Error, vec![(ContextKind::Context, "  1 | x "), (ContextKind::Note, "n")]),
        block("a.c:2: warning: w", Severity::Warning, vec![]),
    ];
    let divider = "─".repeat(80);
    assert_eq!(
        plain_report(&bs, false),
        vec![
            divider.clone(),
            "bx — 1 error(s), 1 warning(s)".to_string(),
            divider.clone(),
            " [ERR ]  a.c:1: error: bad".to_string(),
            "       1 | x".to_string(),
            "  >> n".to_string(),
            "".to_string(),
            divider.clone(),
            "1 error(s)  ·  1 warning(s) (--warnings to show)".to_string(),
        ]
    );
    let all = plain_report(&bs, true);
    assert_eq!(all.len(), 11);
    assert_eq!(all[7], " [WARN]  a.c:2: warning: w");
    assert_eq!(all[10], "1 error(s)  ·  1 warning(s)");
}

#[test]
fn shown_rules() {
    assert!(shown(Severity::Build, false));
    assert!(!shown(Severity::Warning, false));
    assert!(!shown(Severity::Note, false));
    assert!(shown(Severity::Note, true));
}

#[test]
fn list_and_status_text() {
    let b = block(&format!("{}   ", "x".repeat(130)), Severity::Linker, vec![]);
    assert_eq!(list_item_text(&b, true), format!("▶  [LINK]  {}", "x".repeat(120)));
    let short = block("ld: undefined reference to `f'", Severity::Linker, vec![]);
    assert_eq!(list_item_text(&short, false), "   [LINK]  ld: undefined reference to `f'");
    assert_eq!(status_text(2, 7), "  3/7   [j/k move  gg/G jump  y yank  Enter detail  q quit]");
}

#[test]
fn navigation_moves_and_clamps() {
    let mut n = Navigator::new(3);
    assert_eq!(n.handle_key(Key::Char('j'), false), Outcome::Continue);
    assert_eq!(n.selected(), 1);
    n.handle_key(Key::Down, false);
    n.handle_key(Key::Down, false);
    assert_eq!(n.selected(), 2);
    n.handle_key(Key::Char('k'), false);
    assert_eq!(n.selected(), 1);
    n.handle_key(Key::Up, false);
    n.handle_key(Key::Up, false);
    assert_eq!(n.selected(), 0);
    n.handle_key(Key::Char('G'), false);
    assert_eq!(n.selected(), 2);
}

#[test]
fn navigation_double_g() {
    let mut n = Navigator::new(5);
    n.handle_key(Key::Char('G'), false);
    assert_eq!(n.handle_key(Key::Char('g'), false), Outcome::StartG);
    assert_eq!(n.selected(), 4);
    // second g too late: starts over
    assert_eq!(n.handle_key(Key::Char('g'), false), Outcome::StartG);
    assert_eq!(n.handle_key(Key::Char('g'), true), Outcome::Continue);
    assert_eq!(n.selected(), 0);
    // another key in between forgets the first g
    n.handle_key(Key::Char('G'), false);
    n.handle_key(Key::Char('g'), false);
    n.handle_key(Key::Char('x'), false);
    assert_eq!(n.handle_key(Key::Char('g'), true), Outcome::StartG);
    assert_eq!(n.selected(), 4);
}

#[test]
fn navigation_detail_pane() {
    let mut n = Navigator::new(2);
    n.handle_key(Key::Char('j'), false);
    n.handle_key(Key::Enter, false);
    assert_eq!(n.focus(), Focus::Detail);
    n.handle_key(Key::Char('j'), false);
    n.handle_key(Key::Char('j'), false);
    assert_eq!(n.detail_scroll(), 6);
    n.handle_key(Key::Char('k'), false);
    assert_eq!(n.detail_scroll(), 3);
    n.handle_key(Key::Char('G'), false);
    assert_eq!(n.detail_scroll(), 1002);
    n.handle_key(Key::Char('g'), false);
    assert_eq!(n.detail_scroll(), 0);
    assert_eq!(n.selected(), 1);
    assert_eq!(n.handle_key(Key::Char('q'), false), Outcome::Continue);
    assert_eq!(n.focus(), Focus::List);
    assert_eq!(n.handle_key(Key::Char('y'), false), Outcome::Yank);
    assert_eq!(n.handle_key(Key::Char('q'), false), Outcome::Quit);
    assert_eq!(n.handle_key(Key::Interrupt, false), Outcome::Quit);
}

#[test]
fn navigation_scroll_saturates() {
    let mut n = Navigator::new(1);
    n.handle_key(Key::Enter, false);
    for _ in 0..70 {
        n.handle_key(Key::Char('G'), false);
    }
    assert_eq!(n.detail_scroll(), u16::MAX);
    n.handle_key(Key::Esc, false);
    assert_eq!(n.detail_scroll(), 0);
}

#[test]
fn navigation_empty_list() {
    let mut n = Navigator::new(0);
    n.handle_key(Key::Char('j'), false);
    n.handle_key(Key::Char('G'), false);
    assert_eq!(n.selected(), 0);
    assert_eq!(n.handle_key(Key::Char('y'), false), Outcome::Continue);
}

#[test]
fn report_caps_plain_context_at_the_limit() {
    let mut b = block(
        "a.c:1: error: e",
        Severity::Error,
        vec![
            (ContextKind::Context, "c1"),
            (ContextKind::Note, "n1"),
            (ContextKind::Context, "c2"),
            (ContextKind::Context, "c3"),
            (ContextKind::Note, "n2"),
        ],
    );
    b.context_limit = 1;
    let shown: Vec<String> = b.shown_context().into_iter().map(|(_, l)| l).collect();
    assert_eq!(shown, vec!["c1".to_string(), "n1".to_string(), "n2".to_string()]);
    assert_eq!(b.display_lines(), vec!["a.c:1: error: e", "     c1", "  >> n1", "  >> n2"]);
    let report = plain_report(&[b.clone()], false);
    assert_eq!(&report[3..8], &[" [ERR ]  a.c:1: error: e", "     c1", "  >> n1", "  >> n2", ""]);
    // the yanked text keeps everything
    assert_eq!(b.full_text(), "a.c:1: error: e\n     c1\n  >> n1\n     c2\n     c3\n  >> n2");
}

#[test]
fn file_locations() {
    assert_eq!(saved_command_file(Some("/home/me/proj")), "/home/me/proj/.git/bx");
    assert_eq!(saved_command_file(Some("/")), "/.git/bx");
    assert_eq!(saved_command_file(None), ".bx-command");
    assert_eq!(config_file_path(Some("/x"), Some("/h")), "/x/bx/config.toml");
    assert_eq!(config_file_path(None, Some("/h/")), "/h/.config/bx/config.toml");
    assert_eq!(config_file_path(Some(""), None), "bx/config.toml");
    assert_eq!(config_file_path(None, None), ".bx.toml");
    for (local, exists, dir, stop) in [
        (false, true, true, true),
        (false, true, false, false),
        (true, true, false, true),
        (true, false, false, false),
        (false, false, false, false),
    ] {
        assert_eq!(git_root_stop(local, exists, dir), stop);
    }
    // the same texts as std's path joining
    let p = std::path::PathBuf::from("/").join(".git").join("bx");
    assert_eq!(saved_command_file(Some("/")), p.to_string_lossy());
}
