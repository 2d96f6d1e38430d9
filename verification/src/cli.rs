//! Command-line options.

use vstd::prelude::*;
use crate::text::{chars_eq, chars_of, parse_decimal, parse_unsigned, string_views};

verus! {

/// The parsed command line.
pub struct Args {
    /// Open the interactive navigator on failure.
    pub tui: bool,
    /// Also show warnings.
    pub warnings: bool,
    /// Stream all build output live.
    pub verbose: bool,
    /// Show only progress lines live.
    pub progress: bool,
    /// Save the given command for this project.
    pub save: bool,
    /// Treat the nearest `.git` entry as the root.
    pub local: bool,
    /// `--help` was given: show the help and stop.
    pub help: bool,
    /// Context lines per error (0: not given).
    pub context: usize,
    /// The build command.
    pub cmd: Vec<String>,
}

/// The parsed command line as a value of the model.
pub struct ArgsModel {
    pub tui: bool,
    pub warnings: bool,
    pub verbose: bool,
    pub progress: bool,
    pub save: bool,
    pub local: bool,
    pub help: bool,
    pub context: usize,
    pub cmd: Seq<Seq<char>>,
}

impl Args {
    pub open spec fn view(self) -> ArgsModel {
        ArgsModel {
            tui: self.tui,
            warnings: self.warnings,
            verbose: self.verbose,
            progress: self.progress,
            save: self.save,
            local: self.local,
            help: self.help,
            context: self.context,
            cmd: string_views(self.cmd@),
        }
    }
}

/// No option set, no command.
pub open spec fn no_args() -> ArgsModel {
    ArgsModel {
        tui: false,
        warnings: false,
        verbose: false,
        progress: false,
        save: false,
        local: false,
        help: false,
        context: 0,
        cmd: seq![],
    }
}

/// The value that `--context` takes from the word after it: a number, or 10
/// when the word is missing or is not a number.
pub open spec fn context_value(raw: Seq<Seq<char>>, i: int) -> usize {
    if i < raw.len() {
        match parse_unsigned(raw[i], usize::MAX as nat) {
            Some(n) => n as usize,
            None => 10,
        }
    } else {
        10
    }
}

/// Reads the words of `raw` from position `i` on into `a`. Options set their
/// flag; `--context` takes the next word as its value; `--help`/`-h` stops;
/// every other word is part of the build command.
pub open spec fn parse_from(raw: Seq<Seq<char>>, i: int, a: ArgsModel) -> ArgsModel
    decreases raw.len() - i,
{
    if i < 0 || i >= raw.len() {
        a
    } else {
        let x = raw[i];
        if x == "--tui"@ {
            parse_from(raw, i + 1, ArgsModel { tui: true, ..a })
        } else if x == "--warnings"@ {
            parse_from(raw, i + 1, ArgsModel { warnings: true, ..a })
        } else if x == "--verbose"@ || x == "-v"@ {
            parse_from(raw, i + 1, ArgsModel { verbose: true, ..a })
        } else if x == "--progress"@ || x == "-p"@ {
            parse_from(raw, i + 1, ArgsModel { progress: true, ..a })
        } else if x == "--save"@ {
            parse_from(raw, i + 1, ArgsModel { save: true, ..a })
        } else if x == "--local"@ {
            parse_from(raw, i + 1, ArgsModel { local: true, ..a })
        } else if x == "--context"@ {
            let a2 = ArgsModel { context: context_value(raw, i + 1), ..a };
            if i + 1 < raw.len() {
                parse_from(raw, i + 2, a2)
            } else {
                a2
            }
        } else if x == "--help"@ || x == "-h"@ {
            ArgsModel { help: true, ..a }
        } else {
            parse_from(raw, i + 1, ArgsModel { cmd: a.cmd.push(x), ..a })
        }
    }
}

fn is_word(x: &[char], w: &str) -> (b: bool)
    ensures
        b == (x@ == w@),
{
    chars_eq(x, chars_of(w).as_slice())
}

/// Parses the command-line words (without the program name).
pub fn parse_args(raw: &[String]) -> (a: Args)
    ensures
        a.view() == parse_from(string_views(raw@), 0, no_args()),
{
    let ghost rv = string_views(raw@);
    let mut a = Args {
        tui: false,
        warnings: false,
        verbose: false,
        progress: false,
        save: false,
        local: false,
        help: false,
        context: 0,
        cmd: Vec::new(),
    };
    assert(a.view().cmd =~= Seq::<Seq<char>>::empty());
    let mut i: usize = 0;
    while i < raw.len()
        invariant
            i <= raw@.len(),
            rv == string_views(raw@),
            parse_from(rv, 0, no_args()) == parse_from(rv, i as int, a.view()),
        decreases raw.len() - i,
    {
        let x = chars_of(raw[i].as_str());
        assert(rv[i as int] == x@);
        let ghost before = a.view();
        if is_word(x.as_slice(), "--tui") {
            a.tui = true;
        } else if is_word(x.as_slice(), "--warnings") {
            a.warnings = true;
        } else if is_word(x.as_slice(), "--verbose") || is_word(x.as_slice(), "-v") {
            a.verbose = true;
        } else if is_word(x.as_slice(), "--progress") || is_word(x.as_slice(), "-p") {
            a.progress = true;
        } else if is_word(x.as_slice(), "--save") {
            a.save = true;
        } else if is_word(x.as_slice(), "--local") {
            a.local = true;
        } else if is_word(x.as_slice(), "--context") {
            i = i + 1;
            a.context = if i < raw.len() {
                let v = chars_of(raw[i].as_str());
                assert(rv[i as int] == v@);
                match parse_decimal(v.as_slice(), usize::MAX as u64) {
                    Some(n) => n as usize,
                    None => 10,
                }
            } else {
                10
            };
            if i >= raw.len() {
                return a;
            }
        } else if is_word(x.as_slice(), "--help") || is_word(x.as_slice(), "-h") {
            a.help = true;
            return a;
        } else {
            let w = raw[i].clone();
            let ghost cmd_before = a.cmd@;
            a.cmd.push(w);
            assert(string_views(a.cmd@) =~= string_views(cmd_before).push(x@));
        }
        i = i + 1;
    }
    a
}

/// How many context lines each block keeps for display: the `--context`
/// value when one was given, else the configured one, else 10.
pub open spec fn effective_context(arg: usize, configured: Option<usize>) -> usize {
    if arg > 0 {
        arg
    } else {
        match configured {
            Some(c) => c,
            None => 10,
        }
    }
}

/// The number of context lines to use (see `effective_context`).
pub fn context_limit(arg: usize, configured: Option<usize>) -> (r: usize)
    ensures
        r == effective_context(arg, configured),
{
    if arg > 0 {
        arg
    } else {
        match configured {
            Some(c) => c,
            None => 10,
        }
    }
}


/// The option words bx reads.
pub open spec fn is_option_word(w: Seq<char>) -> bool {
    ||| w == "--tui"@
    ||| w == "--warnings"@
    ||| w == "--verbose"@
    ||| w == "-v"@
    ||| w == "--progress"@
    ||| w == "-p"@
    ||| w == "--save"@
    ||| w == "--local"@
    ||| w == "--context"@
    ||| w == "--help"@
    ||| w == "-h"@
}

/// The words that are not option words, in order.
pub open spec fn plain_words(ws: Seq<Seq<char>>) -> Seq<Seq<char>>
    decreases ws.len(),
{
    if ws.len() == 0 {
        seq![]
    } else if is_option_word(ws[0]) {
        plain_words(ws.drop_first())
    } else {
        seq![ws[0]] + plain_words(ws.drop_first())
    }
}

proof fn lemma_option_words_differ()
    ensures
        "--tui"@ != "--warnings"@ && "--tui"@ != "--verbose"@ && "--tui"@ != "-v"@ && "--tui"@
            != "--progress"@ && "--tui"@ != "-p"@ && "--tui"@ != "--save"@ && "--tui"@
            != "--local"@,
        "--warnings"@ != "--verbose"@ && "--warnings"@ != "-v"@ && "--warnings"@ != "--progress"@
            && "--warnings"@ != "-p"@ && "--warnings"@ != "--save"@ && "--warnings"@ != "--local"@,
        "--verbose"@ != "--progress"@ && "--verbose"@ != "-p"@ && "--verbose"@ != "--save"@
            && "--verbose"@ != "--local"@,
        "-v"@ != "--progress"@ && "-v"@ != "-p"@ && "-v"@ != "--save"@ && "-v"@ != "--local"@,
        "--progress"@ != "--save"@ && "--progress"@ != "--local"@,
        "-p"@ != "--save"@ && "-p"@ != "--local"@,
        "--save"@ != "--local"@,
{
    reveal_strlit("--tui");
    reveal_strlit("--warnings");
    reveal_strlit("--verbose");
    reveal_strlit("-v");
    reveal_strlit("--progress");
    reveal_strlit("-p");
    reveal_strlit("--save");
    reveal_strlit("--local");
    assert("--tui"@.len() == 5);
    assert("--warnings"@.len() == 10);
    assert("--verbose"@.len() == 9);
    assert("-v"@.len() == 2);
    assert("--progress"@.len() == 10);
    assert("-p"@.len() == 2);
    assert("--save"@.len() == 6);
    assert("--local"@.len() == 7);
    assert("--warnings"@[2] != "--progress"@[2]);
    assert("-v"@[1] != "-p"@[1]);
}

/// Whether `w` occurs among the words from position `i` on.
pub open spec fn occurs_from(raw: Seq<Seq<char>>, i: int, w: Seq<char>) -> bool {
    exists|j: int| i <= j < raw.len() && #[trigger] raw[j] == w
}

proof fn lemma_occurs_step(raw: Seq<Seq<char>>, i: int, w: Seq<char>)
    requires
        0 <= i < raw.len(),
    ensures
        occurs_from(raw, i, w) <==> (raw[i] == w || occurs_from(raw, i + 1, w)),
{
    if occurs_from(raw, i, w) && raw[i] != w {
        let j = choose|j: int| i <= j < raw.len() && #[trigger] raw[j] == w;
        assert(i + 1 <= j);
    }
}

proof fn lemma_parse_plain_from(raw: Seq<Seq<char>>, i: int, a: ArgsModel)
    requires
        0 <= i <= raw.len(),
        forall|j: int|
            i <= j < raw.len() ==> #[trigger] raw[j] != "--context"@ && raw[j] != "--help"@
                && raw[j] != "-h"@,
    ensures
        ({
            let r = parse_from(raw, i, a);
            &&& r.tui == (a.tui || occurs_from(raw, i, "--tui"@))
            &&& r.warnings == (a.warnings || occurs_from(raw, i, "--warnings"@))
            &&& r.verbose == (a.verbose || occurs_from(raw, i, "--verbose"@) || occurs_from(
                raw,
                i,
                "-v"@,
            ))
            &&& r.progress == (a.progress || occurs_from(raw, i, "--progress"@) || occurs_from(
                raw,
                i,
                "-p"@,
            ))
            &&& r.save == (a.save || occurs_from(raw, i, "--save"@))
            &&& r.local == (a.local || occurs_from(raw, i, "--local"@))
            &&& r.help == a.help
            &&& r.context == a.context
            &&& r.cmd == a.cmd + plain_words(raw.skip(i))
        }),
    decreases raw.len() - i,
{
    lemma_option_words_differ();
    if i == raw.len() {
        assert(raw.skip(i).len() == 0);
        assert(a.cmd + plain_words(raw.skip(i)) =~= a.cmd);
    } else {
        let x = raw[i];
        assert(raw.skip(i).drop_first() =~= raw.skip(i + 1));
        assert(raw.skip(i)[0] == x);
        lemma_occurs_step(raw, i, "--tui"@);
        lemma_occurs_step(raw, i, "--warnings"@);
        lemma_occurs_step(raw, i, "--verbose"@);
        lemma_occurs_step(raw, i, "-v"@);
        lemma_occurs_step(raw, i, "--progress"@);
        lemma_occurs_step(raw, i, "-p"@);
        lemma_occurs_step(raw, i, "--save"@);
        lemma_occurs_step(raw, i, "--local"@);
        assert(x != "--context"@ && x != "--help"@ && x != "-h"@);
        let a2 = if x == "--tui"@ {
            ArgsModel { tui: true, ..a }
        } else if x == "--warnings"@ {
            ArgsModel { warnings: true, ..a }
        } else if x == "--verbose"@ || x == "-v"@ {
            ArgsModel { verbose: true, ..a }
        } else if x == "--progress"@ || x == "-p"@ {
            ArgsModel { progress: true, ..a }
        } else if x == "--save"@ {
            ArgsModel { save: true, ..a }
        } else if x == "--local"@ {
            ArgsModel { local: true, ..a }
        } else {
            ArgsModel { cmd: a.cmd.push(x), ..a }
        };
        assert(parse_from(raw, i, a) == parse_from(raw, i + 1, a2));
        lemma_parse_plain_from(raw, i + 1, a2);
        if !is_option_word(x) {
            assert(a.cmd.push(x) + plain_words(raw.skip(i + 1)) =~= a.cmd + (seq![x] + plain_words(
                raw.skip(i + 1),
            )));
        }
    }
}

/// A command line without `--context`, `--help` or `-h`: each flag is set
/// exactly when its option occurs among the words (anywhere), and the build
/// command is the other words, in order. So `bx --save cmake --build` saves
/// the command `cmake --build`.
pub proof fn lemma_plain_command_line(raw: Seq<Seq<char>>)
    requires
        forall|j: int|
            0 <= j < raw.len() ==> #[trigger] raw[j] != "--context"@ && raw[j] != "--help"@
                && raw[j] != "-h"@,
    ensures
        ({
            let r = parse_from(raw, 0, no_args());
            &&& r.tui == raw.contains("--tui"@)
            &&& r.warnings == raw.contains("--warnings"@)
            &&& r.verbose == (raw.contains("--verbose"@) || raw.contains("-v"@))
            &&& r.progress == (raw.contains("--progress"@) || raw.contains("-p"@))
            &&& r.save == raw.contains("--save"@)
            &&& r.local == raw.contains("--local"@)
            &&& !r.help
            &&& r.context == 0
            &&& r.cmd == plain_words(raw)
        }),
{
    lemma_parse_plain_from(raw, 0, no_args());
    assert(raw.skip(0) == raw);
    assert(seq![] + plain_words(raw) =~= plain_words(raw));
    assert forall|w: Seq<char>| occurs_from(raw, 0, w) <==> raw.contains(w) by {
        if raw.contains(w) {
            let j = choose|j: int| 0 <= j < raw.len() && raw[j] == w;
            assert(occurs_from(raw, 0, w));
        }
    }
}

/// No option word ever ends up in the build command, whatever the words.
pub proof fn lemma_command_has_no_options(raw: Seq<Seq<char>>)
    ensures
        forall|k: int|
            0 <= k < parse_from(raw, 0, no_args()).cmd.len() ==> !is_option_word(
                #[trigger] parse_from(raw, 0, no_args()).cmd[k],
            ),
{
    lemma_command_has_no_options_from(raw, 0, no_args());
}

proof fn lemma_command_has_no_options_from(raw: Seq<Seq<char>>, i: int, a: ArgsModel)
    ensures
        (forall|k: int| 0 <= k < a.cmd.len() ==> !is_option_word(#[trigger] a.cmd[k]))
            ==> (forall|k: int|
            0 <= k < parse_from(raw, i, a).cmd.len() ==> !is_option_word(
                #[trigger] parse_from(raw, i, a).cmd[k],
            )),
        a.save ==> parse_from(raw, i, a).save,
    decreases raw.len() - i,
{
    if 0 <= i < raw.len() {
        let x = raw[i];
        if x == "--tui"@ {
            let a2 = ArgsModel { tui: true, ..a };
            assert(parse_from(raw, i, a) == parse_from(raw, i + 1, a2));
            lemma_command_has_no_options_from(raw, i + 1, a2);
        } else if x == "--warnings"@ {
            let a2 = ArgsModel { warnings: true, ..a };
            assert(parse_from(raw, i, a) == parse_from(raw, i + 1, a2));
            lemma_command_has_no_options_from(raw, i + 1, a2);
        } else if x == "--verbose"@ || x == "-v"@ {
            let a2 = ArgsModel { verbose: true, ..a };
            assert(parse_from(raw, i, a) == parse_from(raw, i + 1, a2));
            lemma_command_has_no_options_from(raw, i + 1, a2);
        } else if x == "--progress"@ || x == "-p"@ {
            let a2 = ArgsModel { progress: true, ..a };
            assert(parse_from(raw, i, a) == parse_from(raw, i + 1, a2));
            lemma_command_has_no_options_from(raw, i + 1, a2);
        } else if x == "--save"@ {
            let a2 = ArgsModel { save: true, ..a };
            assert(parse_from(raw, i, a) == parse_from(raw, i + 1, a2));
            lemma_command_has_no_options_from(raw, i + 1, a2);
        } else if x == "--local"@ {
            let a2 = ArgsModel { local: true, ..a };
            assert(parse_from(raw, i, a) == parse_from(raw, i + 1, a2));
            lemma_command_has_no_options_from(raw, i + 1, a2);
        } else if x == "--context"@ {
            let a2 = ArgsModel { context: context_value(raw, i + 1), ..a };
            if i + 1 < raw.len() {
                assert(parse_from(raw, i, a) == parse_from(raw, i + 2, a2));
                lemma_command_has_no_options_from(raw, i + 2, a2);
            } else {
                assert(parse_from(raw, i, a) == a2);
            }
        } else if x == "--help"@ || x == "-h"@ {
            assert(parse_from(raw, i, a) == ArgsModel { help: true, ..a });
        } else {
            let a2 = ArgsModel { cmd: a.cmd.push(x), ..a };
            assert(!is_option_word(x));
            if forall|k: int| 0 <= k < a.cmd.len() ==> !is_option_word(#[trigger] a.cmd[k]) {
                assert forall|k: int| 0 <= k < a2.cmd.len() implies !is_option_word(
                    #[trigger] a2.cmd[k],
                ) by {
                    if k < a.cmd.len() {
                        assert(a2.cmd[k] == a.cmd[k]);
                    }
                }
            }
            assert(parse_from(raw, i, a) == parse_from(raw, i + 1, a2));
            lemma_command_has_no_options_from(raw, i + 1, a2);
        }
    } else {
        assert(parse_from(raw, i, a) == a);
    }
}

/// Whether the parser reads `raw[j]` as a word of its own when it starts at
/// position `i`: not as the value after `--context`, and not after `--help`
/// or `-h`, where reading stops.
pub open spec fn read_as_word(raw: Seq<Seq<char>>, i: int, j: int) -> bool
    decreases j - i,
{
    if i < 0 || i >= raw.len() || j < i {
        false
    } else if i == j {
        true
    } else if raw[i] == "--help"@ || raw[i] == "-h"@ {
        false
    } else if raw[i] == "--context"@ {
        i + 1 < j && read_as_word(raw, i + 2, j)
    } else {
        read_as_word(raw, i + 1, j)
    }
}

proof fn lemma_save_read_from(raw: Seq<Seq<char>>, i: int, a: ArgsModel, j: int)
    requires
        0 <= j < raw.len(),
        read_as_word(raw, i, j),
        raw[j] == "--save"@,
    ensures
        parse_from(raw, i, a).save,
    decreases raw.len() - i,
{
    lemma_option_words_differ();
    lemma_context_help_differ();
    let x = raw[i];
    if i == j {
        let a2 = ArgsModel { save: true, ..a };
        assert(parse_from(raw, i, a) == parse_from(raw, i + 1, a2));
        lemma_command_has_no_options_from(raw, i + 1, a2);
    } else if x == "--context"@ {
        let a2 = ArgsModel { context: context_value(raw, i + 1), ..a };
        assert(read_as_word(raw, i + 2, j));
        assert(i + 2 <= j);
        assert(parse_from(raw, i, a) == parse_from(raw, i + 2, a2));
        lemma_save_read_from(raw, i + 2, a2, j);
    } else {
        let a2 = if x == "--tui"@ {
            ArgsModel { tui: true, ..a }
        } else if x == "--warnings"@ {
            ArgsModel { warnings: true, ..a }
        } else if x == "--verbose"@ || x == "-v"@ {
            ArgsModel { verbose: true, ..a }
        } else if x == "--progress"@ || x == "-p"@ {
            ArgsModel { progress: true, ..a }
        } else if x == "--save"@ {
            ArgsModel { save: true, ..a }
        } else if x == "--local"@ {
            ArgsModel { local: true, ..a }
        } else {
            ArgsModel { cmd: a.cmd.push(x), ..a }
        };
        assert(parse_from(raw, i, a) == parse_from(raw, i + 1, a2));
        lemma_save_read_from(raw, i + 1, a2, j);
    }
}

proof fn lemma_context_help_differ()
    ensures
        "--context"@ != "--tui"@ && "--context"@ != "--warnings"@ && "--context"@ != "--verbose"@
            && "--context"@ != "-v"@ && "--context"@ != "--progress"@ && "--context"@ != "-p"@
            && "--context"@ != "--save"@ && "--context"@ != "--local"@,
        "--help"@ != "--save"@ && "-h"@ != "--save"@ && "--context"@ != "--help"@ && "--context"@
            != "-h"@,
{
    reveal_strlit("--tui");
    reveal_strlit("--warnings");
    reveal_strlit("--verbose");
    reveal_strlit("-v");
    reveal_strlit("--progress");
    reveal_strlit("-p");
    reveal_strlit("--save");
    reveal_strlit("--local");
    reveal_strlit("--context");
    reveal_strlit("--help");
    reveal_strlit("-h");
    assert("--tui"@.len() == 5);
    assert("--warnings"@.len() == 10);
    assert("--verbose"@.len() == 9);
    assert("-v"@.len() == 2);
    assert("--progress"@.len() == 10);
    assert("-p"@.len() == 2);
    assert("--save"@.len() == 6);
    assert("--local"@.len() == 7);
    assert("--context"@.len() == 9);
    assert("--help"@.len() == 6);
    assert("-h"@.len() == 2);
    assert("--context"@[2] != "--verbose"@[2]);
    assert("--help"@[2] != "--save"@[2]);
}

/// Wherever `--save` stands on the command line, as a word of its own (not
/// as the value of `--context`, and before any `--help`/`-h`), the command is
/// saved.
pub proof fn lemma_save_anywhere(raw: Seq<Seq<char>>, j: int)
    requires
        0 <= j < raw.len(),
        read_as_word(raw, 0, j),
        raw[j] == "--save"@,
    ensures
        parse_from(raw, 0, no_args()).save,
{
    lemma_save_read_from(raw, 0, no_args(), j);
}

} // verus!
