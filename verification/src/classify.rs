//! Classification of build-output lines and their grouping into error blocks.

use vstd::prelude::*;
use crate::text::{
    chars_eq, chars_of, find_char, first_index, has_char, lemma_first_index_bounds, lines_of,
    parse_decimal, parse_unsigned, slice_prefix, slice_range, split_lines, string_of,
    string_views, trim, trim_end, trimmed, trimmed_end,
};
use crate::matcher::{regex_compiles, regex_error_message, regex_finds};

verus! {

/// How serious a classified line is.
#[derive(Clone, Copy, Debug, PartialEq, Eq, Structural)]
pub enum Severity {
    Error,
    Linker,
    Build,
    Warning,
    Note,
}

/// The four-character tag shown in front of a block of this severity.
pub open spec fn severity_label(s: Severity) -> Seq<char> {
    match s {
        Severity::Error => "ERR "@,
        Severity::Linker => "LINK"@,
        Severity::Build => "BLD "@,
        Severity::Warning => "WARN"@,
        Severity::Note => "NOTE"@,
    }
}

/// Errors proper: compiler, linker and build-tool failures.
pub open spec fn severity_is_error(s: Severity) -> bool {
    s is Error || s is Linker || s is Build
}

/// The colour (red, green, blue) a block of this severity is drawn in.
pub open spec fn severity_rgb(s: Severity) -> (u8, u8, u8) {
    match s {
        Severity::Error => (0xb8, 0x6b, 0x65),
        Severity::Linker => (0xc9, 0x88, 0x80),
        Severity::Build => (0xcc, 0x9e, 0x54),
        Severity::Warning => (0x86, 0x9c, 0x7a),
        Severity::Note => (0x56, 0x70, 0x6b),
    }
}

impl Severity {
    /// The colour of this severity as red, green and blue components.
    pub fn color(&self) -> (r: (u8, u8, u8))
        ensures
            r == severity_rgb(*self),
    {
        match self {
            Severity::Error => (0xb8, 0x6b, 0x65),
            Severity::Linker => (0xc9, 0x88, 0x80),
            Severity::Build => (0xcc, 0x9e, 0x54),
            Severity::Warning => (0x86, 0x9c, 0x7a),
            Severity::Note => (0x56, 0x70, 0x6b),
        }
    }

    pub fn label(&self) -> (r: &'static str)
        ensures
            r@ == severity_label(*self),
    {
        match self {
            Severity::Error => "ERR ",
            Severity::Linker => "LINK",
            Severity::Build => "BLD ",
            Severity::Warning => "WARN",
            Severity::Note => "NOTE",
        }
    }

    pub fn is_error(&self) -> (b: bool)
        ensures
            b == severity_is_error(*self),
    {
        match self {
            Severity::Error | Severity::Linker | Severity::Build => true,
            _ => false,
        }
    }
}

/// The severity that a configured severity name stands for.
pub open spec fn severity_named(name: Seq<char>) -> Option<Severity> {
    if name == "error"@ {
        Some(Severity::Error)
    } else if name == "linker"@ {
        Some(Severity::Linker)
    } else if name == "build"@ {
        Some(Severity::Build)
    } else if name == "warning"@ {
        Some(Severity::Warning)
    } else if name == "note"@ {
        Some(Severity::Note)
    } else {
        None
    }
}

/// Reads a configured severity name (`error`, `linker`, `build`, `warning`, `note`).
pub fn severity_from_name(name: &str) -> (r: Option<Severity>)
    ensures
        r == severity_named(name@),
{
    let n = chars_of(name);
    if chars_eq(&n, &chars_of("error")) {
        Some(Severity::Error)
    } else if chars_eq(&n, &chars_of("linker")) {
        Some(Severity::Linker)
    } else if chars_eq(&n, &chars_of("build")) {
        Some(Severity::Build)
    } else if chars_eq(&n, &chars_of("warning")) {
        Some(Severity::Warning)
    } else if chars_eq(&n, &chars_of("note")) {
        Some(Severity::Note)
    } else {
        None
    }
}

/// A regular expression, kept as its source text, with the severity of the
/// lines it matches. Every `Pattern` holds a source that compiles.
pub struct Pattern {
    source: String,
    severity: Severity,
}

impl Pattern {
    #[verifier::type_invariant]
    spec fn compiles(self) -> bool {
        regex_compiles(self.source@)
    }

    /// The source text and the severity.
    pub closed spec fn view(self) -> (Seq<char>, Severity) {
        (self.source@, self.severity)
    }

    pub fn source(&self) -> (r: &str)
        ensures
            r@ == self.view().0,
    {
        self.source.as_str()
    }

    pub fn severity(&self) -> (r: Severity)
        ensures
            r == self.view().1,
    {
        self.severity
    }
}

/// The views of a pattern table.
pub open spec fn pattern_views(p: Seq<Pattern>) -> Seq<(Seq<char>, Severity)> {
    p.map_values(|x: Pattern| x.view())
}

/// The built-in pattern table. Order matters: the first pattern that matches
/// a line decides its severity, so specific patterns come before broad ones.
pub open spec fn builtin_table() -> Seq<(Seq<char>, Severity)> {
    seq![
        (":\\s*fatal error:"@, Severity::Error),
        ("^error\\[E[0-9]+\\]"@, Severity::Error),
        ("^error: could not compile"@, Severity::Build),
        ("aborting due to"@, Severity::Build),
        ("error: ld returned"@, Severity::Linker),
        (":\\s*error:"@, Severity::Error),
        ("^error:"@, Severity::Error),
        ("undefined reference to"@, Severity::Linker),
        ("multiple definition of"@, Severity::Linker),
        ("linker command failed"@, Severity::Linker),
        ("cannot find -l"@, Severity::Linker),
        (":\\s*warning:"@, Severity::Warning),
        ("^warning(\\[[^\\]]*\\])?:"@, Severity::Warning),
        (":\\s*note:"@, Severity::Note),
        ("^\\s*(= )?(note|help):"@, Severity::Note),
        ("^referenced by:"@, Severity::Note),
        ("CMake Error"@, Severity::Error),
        ("CMake Warning"@, Severity::Warning),
        ("-- FAILED"@, Severity::Error),
        ("FAILED:"@, Severity::Build),
        ("ninja: build stopped"@, Severity::Build),
        ("make\\[.+\\]: \\*\\*\\*"@, Severity::Build),
        ("make: \\*\\*\\*"@, Severity::Build),
        ("Build Summary:.*failed"@, Severity::Build),
        ("too many errors emitted"@, Severity::Error),
        ("errors? generated"@, Severity::Build),
    ]
}

fn builtin_patterns() -> (r: Vec<(&'static str, Severity)>)
    ensures
        r@.map_values(|e: (&'static str, Severity)| (e.0@, e.1)) == builtin_table(),
{
    let r = vec![
        (":\\s*fatal error:", Severity::Error),
        ("^error\\[E[0-9]+\\]", Severity::Error),
        ("^error: could not compile", Severity::Build),
        ("aborting due to", Severity::Build),
        ("error: ld returned", Severity::Linker),
        (":\\s*error:", Severity::Error),
        ("^error:", Severity::Error),
        ("undefined reference to", Severity::Linker),
        ("multiple definition of", Severity::Linker),
        ("linker command failed", Severity::Linker),
        ("cannot find -l", Severity::Linker),
        (":\\s*warning:", Severity::Warning),
        ("^warning(\\[[^\\]]*\\])?:", Severity::Warning),
        (":\\s*note:", Severity::Note),
        ("^\\s*(= )?(note|help):", Severity::Note),
        ("^referenced by:", Severity::Note),
        ("CMake Error", Severity::Error),
        ("CMake Warning", Severity::Warning),
        ("-- FAILED", Severity::Error),
        ("FAILED:", Severity::Build),
        ("ninja: build stopped", Severity::Build),
        ("make\\[.+\\]: \\*\\*\\*", Severity::Build),
        ("make: \\*\\*\\*", Severity::Build),
        ("Build Summary:.*failed", Severity::Build),
        ("too many errors emitted", Severity::Error),
        ("errors? generated", Severity::Build),
    ];
    assert(r@.map_values(|e: (&'static str, Severity)| (e.0@, e.1)) =~= builtin_table());
    r
}


/// A pattern from the configuration file: a regex and a severity name.
pub struct UserPattern {
    pub pattern: String,
    pub severity: String,
}

/// The views of configured patterns: (regex source, severity name).
pub open spec fn user_views(u: Seq<UserPattern>) -> Seq<(Seq<char>, Seq<char>)> {
    u.map_values(|x: UserPattern| (x.pattern@, x.severity@))
}

/// Settings read from the configuration file.
pub struct Config {
    pub patterns: Vec<UserPattern>,
    /// Default context lines per error; overridden by `--context`.
    pub context: Option<usize>,
}

impl Default for Config {
    fn default() -> (c: Config)
        ensures
            c.patterns@.len() == 0,
            c.context is None,
    {
        Config { patterns: Vec::new(), context: None }
    }
}

/// Why the pattern table could not be built (as a value of the model).
pub enum PatternFailure {
    /// The pattern, and the engine's explanation.
    InvalidRegex(Seq<char>, Seq<char>),
    UnknownSeverity(Seq<char>),
}

/// Why the pattern table could not be built.
#[derive(Debug)]
pub enum PatternError {
    /// The regex `pattern` does not compile; `message` is the engine's explanation.
    InvalidRegex { pattern: String, message: String },
    /// The severity name is none of error/linker/build/warning/note.
    UnknownSeverity { severity: String },
}

impl PatternError {
    pub open spec fn failure(self) -> PatternFailure {
        match self {
            PatternError::InvalidRegex { pattern, message } => PatternFailure::InvalidRegex(
                pattern@,
                message@,
            ),
            PatternError::UnknownSeverity { severity } => PatternFailure::UnknownSeverity(
                severity@,
            ),
        }
    }
}

/// `r` with `prefix` in front of its success value.
pub open spec fn prepend_ok(
    prefix: Seq<(Seq<char>, Severity)>,
    r: Result<Seq<(Seq<char>, Severity)>, PatternFailure>,
) -> Result<Seq<(Seq<char>, Severity)>, PatternFailure> {
    match r {
        Ok(rest) => Ok(prefix + rest),
        Err(e) => Err(e),
    }
}

/// Checks the built-in entries in order: the first one that does not compile
/// is the failure.
pub open spec fn compile_builtins(t: Seq<(Seq<char>, Severity)>) -> Result<
    Seq<(Seq<char>, Severity)>,
    PatternFailure,
>
    decreases t.len(),
{
    if t.len() == 0 {
        Ok(seq![])
    } else if !regex_compiles(t[0].0) {
        Err(PatternFailure::InvalidRegex(t[0].0, regex_error_message(t[0].0)))
    } else {
        prepend_ok(seq![t[0]], compile_builtins(t.drop_first()))
    }
}

/// Checks the configured entries in order: for each, first the regex, then
/// the severity name; the first problem found is the failure.
pub open spec fn compile_user(u: Seq<(Seq<char>, Seq<char>)>) -> Result<
    Seq<(Seq<char>, Severity)>,
    PatternFailure,
>
    decreases u.len(),
{
    if u.len() == 0 {
        Ok(seq![])
    } else if !regex_compiles(u[0].0) {
        Err(PatternFailure::InvalidRegex(u[0].0, regex_error_message(u[0].0)))
    } else {
        match severity_named(u[0].1) {
            None => Err(PatternFailure::UnknownSeverity(u[0].1)),
            Some(s) => prepend_ok(seq![(u[0].0, s)], compile_user(u.drop_first())),
        }
    }
}

/// The pattern table: the built-in entries, then the configured ones.
pub open spec fn pattern_table(u: Seq<(Seq<char>, Seq<char>)>) -> Result<
    Seq<(Seq<char>, Severity)>,
    PatternFailure,
> {
    match compile_builtins(builtin_table()) {
        Err(e) => Err(e),
        Ok(b) => prepend_ok(b, compile_user(u)),
    }
}

proof fn lemma_prepend_ok_assoc(
    a: Seq<(Seq<char>, Severity)>,
    b: Seq<(Seq<char>, Severity)>,
    r: Result<Seq<(Seq<char>, Severity)>, PatternFailure>,
)
    ensures
        prepend_ok(a, prepend_ok(b, r)) == prepend_ok(a + b, r),
{
    match r {
        Ok(rest) => {
            assert(a + (b + rest) =~= (a + b) + rest);
        },
        Err(_) => {},
    }
}

fn invalid_regex(pattern: &str) -> (r: PatternError)
    requires
        !regex_compiles(pattern@),
    ensures
        r.failure() == PatternFailure::InvalidRegex(pattern@, regex_error_message(pattern@)),
{
    let mut p = String::new();
    crate::text::push_chars(&mut p, chars_of(pattern).as_slice());
    assert(p@ =~= pattern@);
    PatternError::InvalidRegex { pattern: p, message: crate::matcher::compile_error_message(pattern) }
}

/// Builds the pattern table: the built-in patterns followed by the configured
/// ones. Fails on the first configured pattern whose regex does not compile or
/// whose severity name is unknown.
pub fn build_patterns(extra: &[UserPattern]) -> (r: Result<Vec<Pattern>, PatternError>)
    ensures
        match r {
            Ok(p) => pattern_table(user_views(extra@)) == Ok::<_, PatternFailure>(
                pattern_views(p@),
            ),
            Err(e) => pattern_table(user_views(extra@)) == Err::<Seq<(Seq<char>, Severity)>, _>(
                e.failure(),
            ),
        },
{
    let table = builtin_patterns();
    let ghost t = builtin_table();
    let mut out: Vec<Pattern> = Vec::new();
    let mut i: usize = 0;
    assert(t.skip(0) == t);
    while i < table.len()
        invariant
            i <= table@.len(),
            table@.map_values(|e: (&'static str, Severity)| (e.0@, e.1)) == t,
            t == builtin_table(),
            compile_builtins(t) == prepend_ok(pattern_views(out@), compile_builtins(t.skip(i as int))),
        decreases table.len() - i,
    {
        let (src, sev) = table[i];
        assert(t[i as int] == (src@, sev));
        assert(t.skip(i as int)[0] == t[i as int]);
        assert(t.skip(i as int).drop_first() == t.skip(i + 1));
        match crate::matcher::compile_pattern(src) {
            Err(_) => {
                return Err(invalid_regex(src));
            },
            Ok(()) => {},
        }
        let mut s = String::new();
        crate::text::push_chars(&mut s, chars_of(src).as_slice());
        assert(s@ =~= src@);
        let ghost before = out@;
        out.push(Pattern { source: s, severity: sev });
        proof {
            assert(pattern_views(out@) =~= pattern_views(before) + seq![(src@, sev)]);
            lemma_prepend_ok_assoc(pattern_views(before), seq![(src@, sev)], compile_builtins(t.skip(i + 1)));
        }
        i = i + 1;
    }
    assert(t.skip(i as int).len() == 0);
    assert(pattern_views(out@) + seq![] =~= pattern_views(out@));
    let ghost builtin_views = pattern_views(out@);
    let ghost u = user_views(extra@);
    let mut j: usize = 0;
    assert(u.skip(0) == u);
    while j < extra.len()
        invariant
            j <= extra@.len(),
            u == user_views(extra@),
            compile_builtins(builtin_table()) == Ok::<_, PatternFailure>(builtin_views),
            pattern_views(out@).len() >= builtin_views.len(),
            compile_user(u) == prepend_ok(
                pattern_views(out@).skip(builtin_views.len() as int),
                compile_user(u.skip(j as int)),
            ),
            pattern_views(out@).take(builtin_views.len() as int) == builtin_views,
        decreases extra.len() - j,
    {
        let up = &extra[j];
        assert(u[j as int] == (up.pattern@, up.severity@));
        assert(u.skip(j as int)[0] == u[j as int]);
        assert(u.skip(j as int).drop_first() == u.skip(j + 1));
        match crate::matcher::compile_pattern(up.pattern.as_str()) {
            Err(_) => {
                proof {
                    lemma_prepend_ok_assoc(builtin_views, pattern_views(out@).skip(builtin_views.len() as int), compile_user(u.skip(j as int)));
                }
                return Err(invalid_regex(up.pattern.as_str()));
            },
            Ok(()) => {},
        }
        let sev = match severity_from_name(up.severity.as_str()) {
            None => {
                let mut s = String::new();
                crate::text::push_chars(&mut s, chars_of(up.severity.as_str()).as_slice());
                assert(s@ =~= up.severity@);
                return Err(PatternError::UnknownSeverity { severity: s });
            },
            Some(sev) => sev,
        };
        let mut s = String::new();
        crate::text::push_chars(&mut s, chars_of(up.pattern.as_str()).as_slice());
        assert(s@ =~= up.pattern@);
        let ghost before = out@;
        out.push(Pattern { source: s, severity: sev });
        proof {
            let k = builtin_views.len() as int;
            assert(pattern_views(out@) =~= pattern_views(before) + seq![(up.pattern@, sev)]);
            assert(pattern_views(out@).skip(k) =~= pattern_views(before).skip(k) + seq![(up.pattern@, sev)]);
            assert(pattern_views(out@).take(k) =~= pattern_views(before).take(k));
            lemma_prepend_ok_assoc(pattern_views(before).skip(k), seq![(up.pattern@, sev)], compile_user(u.skip(j + 1)));
        }
        j = j + 1;
    }
    proof {
        let k = builtin_views.len() as int;
        assert(u.skip(j as int).len() == 0);
        assert(pattern_views(out@).skip(k) + seq![] =~= pattern_views(out@).skip(k));
        assert(builtin_views + pattern_views(out@).skip(k) =~= pattern_views(out@));
    }
    Ok(out)
}


/// The severity of the first pattern in `pats` that matches `line`, or
/// `None` when none does.
pub open spec fn classify_line(line: Seq<char>, pats: Seq<(Seq<char>, Severity)>) -> Option<Severity>
    decreases pats.len(),
{
    if pats.len() == 0 {
        None
    } else if regex_finds(pats[0].0, line) {
        Some(pats[0].1)
    } else {
        classify_line(line, pats.drop_first())
    }
}

/// Classifies `line`: the severity of the first pattern that matches it.
pub fn classify<'a>(line: &str, patterns: &'a [Pattern]) -> (r: Option<&'a Severity>)
    ensures
        match r {
            Some(s) => classify_line(line@, pattern_views(patterns@)) == Some(*s),
            None => classify_line(line@, pattern_views(patterns@)) is None,
        },
{
    let ghost pv = pattern_views(patterns@);
    let mut i: usize = 0;
    assert(pv.skip(0) == pv);
    while i < patterns.len()
        invariant
            i <= patterns@.len(),
            pv == pattern_views(patterns@),
            classify_line(line@, pv) == classify_line(line@, pv.skip(i as int)),
        decreases patterns.len() - i,
    {
        let p = &patterns[i];
        proof {
            use_type_invariant(p);
        }
        assert(pv.skip(i as int)[0] == p.view());
        assert(pv.skip(i as int).drop_first() == pv.skip(i + 1));
        if crate::matcher::pattern_finds(p.source.as_str(), line) {
            return Some(&p.severity);
        }
        i = i + 1;
    }
    None
}

/// A parsed `file:line` position, as a value of the model.
pub struct LocModel {
    pub file: Seq<char>,
    pub line: u32,
}

/// Parsed `file:line` prefix of a compiler output line (e.g. `src/foo.cpp:42`).
#[derive(Clone, Debug, PartialEq, Eq)]
pub struct SourceLoc {
    pub file: String,
    pub line: u32,
}

impl SourceLoc {
    pub open spec fn view(self) -> LocModel {
        LocModel { file: self.file@, line: self.line }
    }
}

pub open spec fn loc_view(l: Option<SourceLoc>) -> Option<LocModel> {
    match l {
        Some(x) => Some(x.view()),
        None => None,
    }
}

/// Number of bytes in the UTF-8 encoding of `c`.
pub open spec fn utf8_width(c: char) -> nat {
    if (c as u32) < 0x80 {
        1
    } else if (c as u32) < 0x800 {
        2
    } else if (c as u32) < 0x10000 {
        3
    } else {
        4
    }
}

/// Number of bytes in the UTF-8 encoding of `s` (what `str::len` counts).
pub open spec fn utf8_len(s: Seq<char>) -> nat
    decreases s.len(),
{
    if s.len() == 0 {
        0
    } else {
        utf8_len(s.drop_last()) + utf8_width(s.last())
    }
}

proof fn lemma_utf8_len_prefix(s: Seq<char>, k: int)
    requires
        0 <= k <= s.len(),
    ensures
        utf8_len(s.take(k)) <= utf8_len(s),
    decreases s.len(),
{
    if k < s.len() {
        assert(s.drop_last().take(k) == s.take(k));
        lemma_utf8_len_prefix(s.drop_last(), k);
    } else {
        assert(s.take(k) == s);
    }
}

fn utf8_len_exceeds(s: &[char], limit: usize) -> (b: bool)
    requires
        limit < 0x1000,
    ensures
        b == (utf8_len(s@) > limit),
{
    let mut total: usize = 0;
    let mut i: usize = 0;
    assert(s@.take(0) == Seq::<char>::empty());
    while i < s.len()
        invariant
            i <= s@.len(),
            limit < 0x1000,
            total == utf8_len(s@.take(i as int)),
            total <= limit,
        decreases s.len() - i,
    {
        let c = s[i];
        let w: usize = if (c as u32) < 0x80 {
            1
        } else if (c as u32) < 0x800 {
            2
        } else if (c as u32) < 0x10000 {
            3
        } else {
            4
        };
        assert(s@.take(i + 1).drop_last() == s@.take(i as int));
        total = total + w;
        i = i + 1;
        if total > limit {
            proof {
                lemma_utf8_len_prefix(s@, i as int);
            }
            return true;
        }
    }
    assert(s@.take(i as int) == s@);
    false
}

/// Location jumps farther than this many lines end a block's context.
pub open spec fn loc_jump_threshold() -> u32 {
    5
}

/// The `file:line` prefix of `line`, when it has one: the text before the first
/// `':'` is the file, and the field after it (up to the next `':'`), trimmed,
/// must be a line number. A first field that holds neither `'/'` nor `'.'` and
/// is longer than 20 bytes is a word, not a path.
pub open spec fn location_of(line: Seq<char>) -> Option<LocModel> {
    let i = first_index(line, ':');
    if i >= line.len() {
        None
    } else {
        let file = line.take(i);
        let rest = line.skip(i + 1);
        let field = rest.take(first_index(rest, ':'));
        if file.len() == 0 || (!file.contains('/') && !file.contains('.') && utf8_len(file) > 20) {
            None
        } else {
            match parse_unsigned(trim(field), u32::MAX as nat) {
                Some(n) => Some(LocModel { file, line: n as u32 }),
                None => None,
            }
        }
    }
}

/// Tries to parse a `file:line:` or `file:line:col:` prefix.
/// Returns `None` if the line does not look like compiler output.
pub fn parse_location(line: &str) -> (r: Option<SourceLoc>)
    ensures
        loc_view(r) == location_of(line@),
{
    let s = chars_of(line);
    let i = find_char(s.as_slice(), ':');
    proof {
        lemma_first_index_bounds(s@, ':');
    }
    if i >= s.len() {
        return None;
    }
    let rest = slice_range(s.as_slice(), i + 1, s.len());
    assert(rest@ == s@.skip(i + 1));
    let j = find_char(rest.as_slice(), ':');
    proof {
        lemma_first_index_bounds(rest@, ':');
    }
    let field = slice_prefix(rest.as_slice(), j);
    let file = slice_prefix(s.as_slice(), i);
    if i == 0 || (!has_char(file.as_slice(), '/') && !has_char(file.as_slice(), '.')
        && utf8_len_exceeds(file.as_slice(), 20)) {
        return None;
    }
    let t = trimmed(field.as_slice());
    match parse_decimal(t.as_slice(), 0xffff_ffff) {
        Some(n) => {
            let f = string_of(file.as_slice());
            Some(SourceLoc { file: f, line: n as u32 })
        },
        None => None,
    }
}


/// Whether a line attached to a block is a note or plain context.
#[derive(Clone, Copy, Debug, PartialEq, Eq, Structural)]
pub enum ContextKind {
    Note,
    Context,
}

/// An error block as a value of the model.
pub struct BlockModel {
    pub trigger: Seq<char>,
    pub severity: Severity,
    pub context: Seq<(ContextKind, Seq<char>)>,
    pub location: Option<LocModel>,
    pub context_limit: usize,
}

/// A classified line that opens a block, with the lines attached after it.
#[derive(Clone, Debug)]
pub struct ErrorBlock {
    pub trigger: String,
    pub severity: Severity,
    pub context: Vec<(ContextKind, String)>,
    pub location: Option<SourceLoc>,
    /// How many context lines to show; all of them are kept.
    pub context_limit: usize,
}

pub open spec fn context_views(c: Seq<(ContextKind, String)>) -> Seq<(ContextKind, Seq<char>)> {
    c.map_values(|e: (ContextKind, String)| (e.0, e.1@))
}

impl ErrorBlock {
    pub open spec fn view(self) -> BlockModel {
        BlockModel {
            trigger: self.trigger@,
            severity: self.severity,
            context: context_views(self.context@),
            location: loc_view(self.location),
            context_limit: self.context_limit,
        }
    }
}

pub open spec fn block_views(b: Seq<ErrorBlock>) -> Seq<BlockModel> {
    b.map_values(|x: ErrorBlock| x.view())
}

/// The state of the grouping after some lines: the blocks so far, and whether
/// unclassified lines still attach to the last one.
pub struct Grouping {
    pub blocks: Seq<BlockModel>,
    pub collecting: bool,
}

/// Whether a line at `here` is too far from the trigger at `trigger` to be its
/// context: another file, or more than `loc_jump_threshold()` lines away.
pub open spec fn location_jump(trigger: Option<LocModel>, here: Option<LocModel>) -> bool {
    match (trigger, here) {
        (Some(t), Some(h)) => t.file != h.file || (if t.line >= h.line {
            t.line - h.line
        } else {
            h.line - t.line
        }) > loc_jump_threshold(),
        _ => false,
    }
}

/// `b` with `entry` attached at the end of its context.
pub open spec fn attach(b: BlockModel, entry: (ContextKind, Seq<char>)) -> BlockModel {
    BlockModel { context: b.context.push(entry), ..b }
}

/// A new block opened by `line`.
pub open spec fn open_block(line: Seq<char>, s: Severity, limit: usize) -> BlockModel {
    BlockModel {
        trigger: line,
        severity: s,
        context: seq![],
        location: location_of(line),
        context_limit: limit,
    }
}

/// One line of input. A note attaches to the last block, and is dropped when
/// there is none yet: a note never opens a block. Any other classified line
/// opens a block; an
/// unclassified line attaches as context while the last block is collecting,
/// unless its location is far from the trigger's, which ends the collecting.
pub open spec fn group_step(g: Grouping, line: Seq<char>, sev: Option<Severity>, limit: usize) -> Grouping {
    let n = g.blocks.len();
    match sev {
        Some(s) => if s is Note {
            if n > 0 {
                Grouping {
                    blocks: g.blocks.update(n - 1, attach(g.blocks[n - 1], (ContextKind::Note, line))),
                    collecting: g.collecting,
                }
            } else {
                g
            }
        } else {
            Grouping { blocks: g.blocks.push(open_block(line, s, limit)), collecting: true }
        },
        None => if !g.collecting || n == 0 {
            g
        } else if location_jump(g.blocks[n - 1].location, location_of(line)) {
            Grouping { blocks: g.blocks, collecting: false }
        } else {
            Grouping {
                blocks: g.blocks.update(n - 1, attach(g.blocks[n - 1], (ContextKind::Context, line))),
                collecting: true,
            }
        },
    }
}

/// The grouping of a whole sequence of classified lines.
pub open spec fn group_lines(input: Seq<(Seq<char>, Option<Severity>)>, limit: usize) -> Grouping
    decreases input.len(),
{
    if input.len() == 0 {
        Grouping { blocks: seq![], collecting: false }
    } else {
        group_step(group_lines(input.drop_last(), limit), input.last().0, input.last().1, limit)
    }
}

pub open spec fn classified_views(c: Seq<(String, Option<Severity>)>) -> Seq<(Seq<char>, Option<Severity>)> {
    c.map_values(|e: (String, Option<Severity>)| (e.0@, e.1))
}

/// The blocks so far: the finished ones, then the open one.
pub open spec fn current_views(done: Seq<ErrorBlock>, cur: Option<ErrorBlock>) -> Seq<BlockModel> {
    match cur {
        Some(b) => block_views(done).push(b.view()),
        None => block_views(done),
    }
}

fn copy_string(s: &String) -> (r: String)
    ensures
        r@ == s@,
{
    s.clone()
}

/// Groups classified lines into error blocks (see `group_step`).
pub fn group_blocks(input: &[(String, Option<Severity>)], context_limit: usize) -> (r: Vec<ErrorBlock>)
    ensures
        block_views(r@) == group_lines(classified_views(input@), context_limit).blocks,
        forall|k: int| 0 <= k < r@.len() ==> (#[trigger] r@[k]).severity !is Note,
{
    let ghost iv = classified_views(input@);
    let mut done: Vec<ErrorBlock> = Vec::new();
    let mut cur: Option<ErrorBlock> = None;
    let mut collecting = false;
    let mut i: usize = 0;
    while i < input.len()
        invariant
            i <= input@.len(),
            iv == classified_views(input@),
            current_views(done@, cur) == group_lines(iv.take(i as int), context_limit).blocks,
            collecting == group_lines(iv.take(i as int), context_limit).collecting,
            collecting ==> cur is Some,
            cur is None ==> done@.len() == 0,
        decreases input.len() - i,
    {
        let ghost g = group_lines(iv.take(i as int), context_limit);
        assert(iv.take(i + 1).drop_last() == iv.take(i as int));
        assert(iv.take(i + 1).last() == (input@[i as int].0@, input@[i as int].1));
        let line = &input[i].0;
        let sev = input[i].1;
        match sev {
            Some(s) => {
                if s == Severity::Note && cur.is_none() {
                    // a note with no block to attach to is dropped
                } else if s == Severity::Note {
                    let mut b = cur.unwrap();
                    let ghost old_b = b;
                    b.context.push((ContextKind::Note, copy_string(line)));
                    assert(context_views(b.context@) =~= context_views(old_b.context@).push((ContextKind::Note, line@)));
                    assert(b.view() == attach(old_b.view(), (ContextKind::Note, line@)));
                    cur = Some(b);
                    assert(current_views(done@, cur) =~= g.blocks.update(g.blocks.len() - 1, b.view()));
                } else {
                    let nb = ErrorBlock {
                        trigger: copy_string(line),
                        severity: s,
                        context: Vec::new(),
                        location: parse_location(line.as_str()),
                        context_limit,
                    };
                    assert(context_views(nb.context@) =~= Seq::<(ContextKind, Seq<char>)>::empty());
                    assert(nb.view() == open_block(line@, s, context_limit));
                    let ghost old_done = done@;
                    match cur {
                        Some(b) => {
                            done.push(b);
                            assert(block_views(done@) =~= block_views(old_done).push(b.view()));
                        },
                        None => {},
                    }
                    cur = Some(nb);
                    collecting = true;
                    assert(current_views(done@, cur) =~= g.blocks.push(open_block(line@, s, context_limit)));
                }
            },
            None => {
                if collecting {
                    let mut b = cur.unwrap();
                    let ghost old_b = b;
                    assert(g.blocks[g.blocks.len() - 1] == b.view());
                    let here = parse_location(line.as_str());
                    let jump = match (&b.location, &here) {
                        (Some(t), Some(h)) => {
                            let d = if t.line >= h.line {
                                t.line - h.line
                            } else {
                                h.line - t.line
                            };
                            t.file != h.file || d > 5
                        },
                        _ => false,
                    };
                    if jump {
                        collecting = false;
                        cur = Some(b);
                    } else {
                        b.context.push((ContextKind::Context, copy_string(line)));
                        assert(context_views(b.context@) =~= context_views(old_b.context@).push((ContextKind::Context, line@)));
                        assert(b.view() == attach(old_b.view(), (ContextKind::Context, line@)));
                        cur = Some(b);
                        assert(current_views(done@, cur) =~= g.blocks.update(g.blocks.len() - 1, b.view()));
                    }
                }
            },
        }
        i = i + 1;
    }
    assert(iv.take(i as int) == iv);
    match cur {
        Some(b) => {
            let ghost old_done = done@;
            done.push(b);
            assert(block_views(done@) =~= block_views(old_done).push(b.view()));
        },
        None => {},
    }
    proof {
        crate::classify_laws::lemma_no_note_blocks(iv, context_limit);
        assert forall|k: int| 0 <= k < done@.len() implies (#[trigger] done@[k]).severity !is Note by {
            assert(block_views(done@)[k].severity == done@[k].severity);
        }
    }
    done
}


/// Each line of `lines` paired with its classification under `pats`.
pub open spec fn classify_lines(lines: Seq<Seq<char>>, pats: Seq<(Seq<char>, Severity)>) -> Seq<
    (Seq<char>, Option<Severity>),
> {
    lines.map_values(|l: Seq<char>| (l, classify_line(l, pats)))
}

/// Groups raw build output into error blocks: the lines of `raw` are
/// classified with `patterns`, then grouped (see `group_step`). Every block
/// records `context_limit`, which only caps how much of its context is shown.
pub fn collect_blocks(raw: &str, context_limit: usize, patterns: &[Pattern]) -> (r: Vec<ErrorBlock>)
    ensures
        block_views(r@) == group_lines(
            classify_lines(lines_of(raw@), pattern_views(patterns@)),
            context_limit,
        ).blocks,
        forall|k: int| 0 <= k < r@.len() ==> (#[trigger] r@[k]).severity !is Note,
{
    let lines = split_lines(raw);
    let ghost pv = pattern_views(patterns@);
    let mut classified: Vec<(String, Option<Severity>)> = Vec::new();
    let mut i: usize = 0;
    while i < lines.len()
        invariant
            i <= lines@.len(),
            pv == pattern_views(patterns@),
            classified_views(classified@) == classify_lines(string_views(lines@), pv).take(i as int),
        decreases lines.len() - i,
    {
        let sev = match classify(lines[i].as_str(), patterns) {
            Some(s) => Some(*s),
            None => None,
        };
        let ghost before = classified@;
        let l = copy_string(&lines[i]);
        assert(string_views(lines@)[i as int] == lines@[i as int]@);
        classified.push((l, sev));
        assert(classified_views(classified@) =~= classified_views(before).push((l@, sev)));
        assert(classify_lines(string_views(lines@), pv).take(i + 1) =~= classify_lines(string_views(lines@), pv).take(i as int).push((l@, sev)));
        assert(classified_views(classified@) =~= classify_lines(string_views(lines@), pv).take(i + 1));
        i = i + 1;
    }
    assert(classify_lines(string_views(lines@), pv).take(i as int) == classify_lines(string_views(lines@), pv));
    group_blocks(classified.as_slice(), context_limit)
}

/// What is written in front of an attached line.
pub open spec fn context_prefix(k: ContextKind) -> Seq<char> {
    match k {
        ContextKind::Note => "  >> "@,
        ContextKind::Context => "     "@,
    }
}

/// How an attached line is shown: its prefix, then the line without trailing
/// white space.
pub open spec fn context_text(e: (ContextKind, Seq<char>)) -> Seq<char> {
    context_prefix(e.0) + trim_end(e.1)
}

/// The text of a block's context, each line preceded by a line break.
pub open spec fn context_block_text(c: Seq<(ContextKind, Seq<char>)>) -> Seq<char>
    decreases c.len(),
{
    if c.len() == 0 {
        seq![]
    } else {
        context_block_text(c.drop_last()) + seq!['\n'] + context_text(c.last())
    }
}

/// The whole text of a block: the trigger without trailing white space, then
/// each attached line on a line of its own.
pub open spec fn block_text(b: BlockModel) -> Seq<char> {
    trim_end(b.trigger) + context_block_text(b.context)
}

/// Number of plain context lines (not notes) among attached lines.
pub open spec fn count_context(c: Seq<(ContextKind, Seq<char>)>) -> nat
    decreases c.len(),
{
    if c.len() == 0 {
        0
    } else {
        count_context(c.drop_last()) + if c.last().0 is Context {
            1nat
        } else {
            0nat
        }
    }
}

/// The attached lines that are shown: every note, and the first `limit` plain
/// context lines.
pub open spec fn shown_context(c: Seq<(ContextKind, Seq<char>)>, limit: usize) -> Seq<
    (ContextKind, Seq<char>),
>
    decreases c.len(),
{
    if c.len() == 0 {
        seq![]
    } else if c.last().0 is Note || count_context(c.drop_last()) < limit {
        shown_context(c.drop_last(), limit).push(c.last())
    } else {
        shown_context(c.drop_last(), limit)
    }
}

/// The lines a block is shown as: the trigger, then each shown attached line
/// (see `shown_context`).
pub open spec fn block_lines(b: BlockModel) -> Seq<Seq<char>> {
    seq![trim_end(b.trigger)] + context_texts(shown_context(b.context, b.context_limit))
}

/// How each attached line is shown.
pub open spec fn context_texts(c: Seq<(ContextKind, Seq<char>)>) -> Seq<Seq<char>> {
    c.map_values(|e: (ContextKind, Seq<char>)| context_text(e))
}

fn prefix_chars(k: ContextKind) -> (r: Vec<char>)
    ensures
        r@ == context_prefix(k),
{
    match k {
        ContextKind::Note => chars_of("  >> "),
        ContextKind::Context => chars_of("     "),
    }
}

impl ErrorBlock {
    /// The block as text: the trigger, then every attached line with its prefix.
    pub fn full_text(&self) -> (r: String)
        ensures
            r@ == block_text(self.view()),
    {
        let mut out = trimmed_end(chars_of(self.trigger.as_str()).as_slice());
        let ghost c = context_views(self.context@);
        let mut i: usize = 0;
        assert(c.take(0) == Seq::<(ContextKind, Seq<char>)>::empty());
        while i < self.context.len()
            invariant
                i <= self.context@.len(),
                c == context_views(self.context@),
                out@ == trim_end(self.trigger@) + context_block_text(c.take(i as int)),
            decreases self.context.len() - i,
        {
            let (kind, line) = &self.context[i];
            let ghost before = out@;
            out.push('\n');
            let p = prefix_chars(*kind);
            let mut k: usize = 0;
            while k < p.len()
                invariant
                    k <= p@.len(),
                    out@ == before + seq!['\n'] + p@.take(k as int),
                decreases p.len() - k,
            {
                out.push(p[k]);
                k = k + 1;
                assert(out@ =~= before + seq!['\n'] + p@.take(k as int));
            }
            let t = trimmed_end(chars_of(line.as_str()).as_slice());
            let mut k: usize = 0;
            assert(p@.take(p@.len() as int) == p@);
            while k < t.len()
                invariant
                    k <= t@.len(),
                    out@ == before + seq!['\n'] + p@ + t@.take(k as int),
                decreases t.len() - k,
            {
                out.push(t[k]);
                k = k + 1;
                assert(out@ =~= before + seq!['\n'] + p@ + t@.take(k as int));
            }
            assert(t@.take(t@.len() as int) == t@);
            assert(c.take(i + 1).drop_last() == c.take(i as int));
            assert(c.take(i + 1).last() == (*kind, line@));
            assert(out@ =~= trim_end(self.trigger@) + context_block_text(c.take(i + 1)));
            i = i + 1;
        }
        assert(c.take(i as int) == c);
        string_of(out.as_slice())
    }

    /// The attached lines that are shown (see `shown_context`).
    pub fn shown_context(&self) -> (r: Vec<(ContextKind, String)>)
        ensures
            context_views(r@) == shown_context(context_views(self.context@), self.context_limit),
    {
        let ghost c = context_views(self.context@);
        let mut out: Vec<(ContextKind, String)> = Vec::new();
        let mut n_ctx: usize = 0;
        let mut i: usize = 0;
        assert(c.take(0) =~= Seq::<(ContextKind, Seq<char>)>::empty());
        while i < self.context.len()
            invariant
                i <= self.context@.len(),
                c == context_views(self.context@),
                n_ctx == count_context(c.take(i as int)),
                n_ctx <= i,
                context_views(out@) == shown_context(c.take(i as int), self.context_limit),
            decreases self.context.len() - i,
        {
            let (kind, line) = &self.context[i];
            assert(c.take(i + 1).drop_last() == c.take(i as int));
            assert(c.take(i + 1).last() == (*kind, line@));
            if *kind == ContextKind::Note || n_ctx < self.context_limit {
                let ghost before = out@;
                out.push((*kind, copy_string(line)));
                assert(context_views(out@) =~= context_views(before).push((*kind, line@)));
            }
            if *kind == ContextKind::Context {
                n_ctx = n_ctx + 1;
            }
            i = i + 1;
        }
        assert(c.take(i as int) == c);
        out
    }

    /// The lines the block is shown as (see `block_lines`).
    pub fn display_lines(&self) -> (r: Vec<String>)
        ensures
            string_views(r@) == block_lines(self.view()),
    {
        let shown = self.shown_context();
        shown_lines(&self.trigger, &shown)
    }
}

/// The trigger without trailing white space, then each of the attached lines
/// as shown.
fn shown_lines(trigger: &String, context: &Vec<(ContextKind, String)>) -> (r: Vec<String>)
    ensures
        string_views(r@) == seq![trim_end(trigger@)] + context_texts(context_views(context@)),
{
    let mut out: Vec<String> = Vec::new();
    out.push(string_of(trimmed_end(chars_of(trigger.as_str()).as_slice()).as_slice()));
    let ghost c = context_views(context@);
    let mut i: usize = 0;
    while i < context.len()
        invariant
            i <= context@.len(),
            c == context_views(context@),
            string_views(out@) == seq![trim_end(trigger@)] + context_texts(c.take(i as int)),
        decreases context.len() - i,
    {
        let (kind, line) = &context[i];
        let mut v = prefix_chars(*kind);
        let t = trimmed_end(chars_of(line.as_str()).as_slice());
        let ghost pv = v@;
        let mut k: usize = 0;
        while k < t.len()
            invariant
                k <= t@.len(),
                v@ == pv + t@.take(k as int),
            decreases t.len() - k,
        {
            v.push(t[k]);
            k = k + 1;
            assert(v@ =~= pv + t@.take(k as int));
        }
        assert(t@.take(t@.len() as int) == t@);
        let ghost before = out@;
        out.push(string_of(v.as_slice()));
        assert(c[i as int] == (*kind, line@));
        assert(string_views(out@) =~= string_views(before).push(v@));
        assert(context_texts(c.take(i + 1)) =~= context_texts(c.take(i as int)).push(context_text(c[i as int])));
        assert(string_views(out@) =~= seq![trim_end(trigger@)] + context_texts(c.take(i + 1)));
        i = i + 1;
    }
    assert(c.take(i as int) == c);
    out
}

} // verus!
