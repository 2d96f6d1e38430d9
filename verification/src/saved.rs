//! The saved build command: a small text file whose first line is the working
//! directory and whose other lines are the command's words, one per line.
//! Files of an older format hold only the words.

use vstd::prelude::*;
use crate::text::{
    chars_of, lemma_first_index, lemma_first_index_bounds, lines_of, push_chars,
    split_lines, string_views, strip_cr,
};

verus! {

/// A saved command.
pub struct SavedCommand {
    /// The words of the command.
    pub cmd: Vec<String>,
    /// The directory to run it from; `None` for a file of the older format,
    /// which runs the command from the current directory.
    pub dir: Option<String>,
}

/// The words joined with line breaks between them.
pub open spec fn join_lines(words: Seq<Seq<char>>) -> Seq<char>
    decreases words.len(),
{
    if words.len() == 0 {
        seq![]
    } else if words.len() == 1 {
        words[0]
    } else {
        words[0] + seq!['\n'] + join_lines(words.drop_first())
    }
}

/// The file content for a command saved from directory `cwd`.
pub open spec fn saved_text(cwd: Seq<char>, cmd: Seq<Seq<char>>) -> Seq<char> {
    cwd + seq!['\n'] + join_lines(cmd)
}

/// What a saved-command file holds: `None` when it is empty, when its first
/// line is empty, or when a directory line is followed by no command. A first
/// line that starts with `'/'` or `'~'` is the directory; otherwise the file is
/// of the older format and every line is a word of the command.
pub open spec fn saved_command_of(raw: Seq<char>) -> Option<(Option<Seq<char>>, Seq<Seq<char>>)> {
    let ls = lines_of(raw);
    if ls.len() == 0 || ls[0].len() == 0 {
        None
    } else if ls[0][0] == '/' || ls[0][0] == '~' {
        if ls.len() == 1 {
            None
        } else {
            Some((Some(ls[0]), ls.drop_first()))
        }
    } else {
        Some((None, ls))
    }
}

impl SavedCommand {
    pub open spec fn view(self) -> (Option<Seq<char>>, Seq<Seq<char>>) {
        (
            match self.dir {
                Some(d) => Some(d@),
                None => None,
            },
            string_views(self.cmd@),
        )
    }
}

/// The file content that saves `cmd` to be run from `cwd` (see `saved_text`).
pub fn format_saved_command(cwd: &str, cmd: &[String]) -> (r: String)
    ensures
        r@ == saved_text(cwd@, string_views(cmd@)),
{
    let mut out = String::new();
    push_chars(&mut out, chars_of(cwd).as_slice());
    crate::text::push_char(&mut out, '\n');
    let ghost head = out@;
    let ghost cv = string_views(cmd@);
    let mut i: usize = 0;
    while i < cmd.len()
        invariant
            i <= cmd@.len(),
            cv == string_views(cmd@),
            head == cwd@ + seq!['\n'],
            out@ == head + join_lines(cv.take(i as int)),
        decreases cmd.len() - i,
    {
        if i > 0 {
            crate::text::push_char(&mut out, '\n');
        }
        push_chars(&mut out, chars_of(cmd[i].as_str()).as_slice());
        proof {
            lemma_join_push(cv.take(i as int), cv[i as int]);
            assert(cv.take(i + 1) == cv.take(i as int).push(cv[i as int]));
        }
        i = i + 1;
    }
    assert(cv.take(i as int) == cv);
    out
}

pub proof fn lemma_join_push(words: Seq<Seq<char>>, w: Seq<char>)
    ensures
        join_lines(words.push(w)) == if words.len() == 0 {
            w
        } else {
            join_lines(words) + seq!['\n'] + w
        },
    decreases words.len(),
{
    if words.len() >= 1 {
        assert(words.push(w).drop_first() == words.drop_first().push(w));
        lemma_join_push(words.drop_first(), w);
        if words.len() > 1 {
            assert(words[0] + seq!['\n'] + (join_lines(words.drop_first()) + seq!['\n'] + w) =~= (
            words[0] + seq!['\n'] + join_lines(words.drop_first())) + seq!['\n'] + w);
        }
    }
}

/// Reads a saved-command file (see `saved_command_of`).
pub fn parse_saved_command(raw: &str) -> (r: Option<SavedCommand>)
    ensures
        match r {
            Some(c) => saved_command_of(raw@) == Some(c.view()),
            None => saved_command_of(raw@) is None,
        },
{
    let mut lines = split_lines(raw);
    let ghost lv = string_views(lines@);
    if lines.len() == 0 {
        return None;
    }
    let first = chars_of(lines[0].as_str());
    assert(lv[0] == first@);
    if first.len() == 0 {
        return None;
    }
    if first[0] == '/' || first[0] == '~' {
        if lines.len() == 1 {
            return None;
        }
        let dir = lines.remove(0);
        assert(string_views(lines@) =~= lv.drop_first());
        Some(SavedCommand { cmd: lines, dir: Some(dir) })
    } else {
        Some(SavedCommand { cmd: lines, dir: None })
    }
}

/// Whether `w` can stand as a word of a saved command and come back unchanged:
/// it holds no line break and does not end with a carriage return.
pub open spec fn plain_word(w: Seq<char>) -> bool {
    !w.contains('\n') && !(w.len() > 0 && w.last() == '\r')
}

proof fn lemma_lines_of_cons(a: Seq<char>, b: Seq<char>)
    requires
        !a.contains('\n'),
    ensures
        lines_of(a + seq!['\n'] + b) == seq![strip_cr(a)] + lines_of(b),
{
    let s = a + seq!['\n'] + b;
    assert forall|j: int| 0 <= j < a.len() implies s[j] != '\n' by {
        assert(s[j] == a[j]);
    }
    lemma_first_index(s, '\n', a.len() as int);
    assert(s.take(a.len() as int) == a);
    assert(s.skip(a.len() + 1int) == b);
}

proof fn lemma_lines_of_single(a: Seq<char>)
    requires
        !a.contains('\n'),
        a.len() > 0,
    ensures
        lines_of(a) == seq![a],
{
    lemma_first_index_bounds(a, '\n');
}

proof fn lemma_lines_of_join(words: Seq<Seq<char>>)
    requires
        words.len() > 0,
        forall|i: int| 0 <= i < words.len() ==> plain_word(#[trigger] words[i]),
        words.last().len() > 0,
    ensures
        lines_of(join_lines(words)) == words,
    decreases words.len(),
{
    assert(plain_word(words[0]));
    if words.len() == 1 {
        lemma_lines_of_single(words[0]);
    } else {
        let rest = words.drop_first();
        assert forall|i: int| 0 <= i < rest.len() implies plain_word(#[trigger] rest[i]) by {
            assert(rest[i] == words[i + 1]);
        }
        lemma_lines_of_join(rest);
        lemma_lines_of_cons(words[0], join_lines(rest));
        assert(strip_cr(words[0]) == words[0]);
        assert(seq![words[0]] + rest =~= words);
    }
}

/// Saving a command and reading the file back gives the same directory and
/// the same words, provided the directory starts with `'/'` or `'~'`, no word
/// or directory holds a line break or ends with a carriage return, there is a
/// word, and the last word is not empty.
pub proof fn lemma_saved_command_roundtrip(cwd: Seq<char>, cmd: Seq<Seq<char>>)
    requires
        cwd.len() > 0,
        cwd[0] == '/' || cwd[0] == '~',
        plain_word(cwd),
        cmd.len() > 0,
        forall|i: int| 0 <= i < cmd.len() ==> plain_word(#[trigger] cmd[i]),
        cmd.last().len() > 0,
    ensures
        saved_command_of(saved_text(cwd, cmd)) == Some((Some(cwd), cmd)),
{
    lemma_lines_of_join(cmd);
    lemma_lines_of_cons(cwd, join_lines(cmd));
    let ls = lines_of(saved_text(cwd, cmd));
    assert(strip_cr(cwd) == cwd);
    assert(ls == seq![cwd] + cmd);
    assert(ls.drop_first() =~= cmd);
}

} // verus!
