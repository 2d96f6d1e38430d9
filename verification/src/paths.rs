//! Where bx keeps its files: the saved command at the repository root, and
//! the configuration file. Paths are texts with `'/'` as the separator; the
//! program walks the directories and reads the environment.

use vstd::prelude::*;
use crate::text::{chars_of, string_of};

verus! {

/// `part` appended to `base` as `Path::join` does for a relative `part`: a
/// separator goes between them unless `base` is empty or already ends in one.
pub open spec fn join_path(base: Seq<char>, part: Seq<char>) -> Seq<char> {
    if base.len() == 0 || base.last() == '/' {
        base + part
    } else {
        base + seq!['/'] + part
    }
}

fn push_joined(out: &mut Vec<char>, part: &str)
    ensures
        final(out)@ == join_path(old(out)@, part@),
{
    if out.len() > 0 && out[out.len() - 1] != '/' {
        out.push('/');
    }
    let v = chars_of(part);
    let mut i: usize = 0;
    let ghost base = out@;
    while i < v.len()
        invariant
            i <= v@.len(),
            v@ == part@,
            out@ == base + v@.take(i as int),
        decreases v.len() - i,
    {
        out.push(v[i]);
        i = i + 1;
        assert(out@ =~= base + v@.take(i as int));
    }
    assert(v@.take(i as int) == v@);
}

/// Whether the walk up the directories stops at a directory whose `.git`
/// entry is as given: with `--local` at any `.git` entry (a submodule's
/// `.git` file too), otherwise only at a real `.git` directory.
pub open spec fn stops_at_git(local: bool, git_exists: bool, git_is_dir: bool) -> bool {
    git_exists && (local || git_is_dir)
}

/// Whether a directory is the repository root (see `stops_at_git`).
pub fn git_root_stop(local: bool, git_exists: bool, git_is_dir: bool) -> (stop: bool)
    ensures
        stop == stops_at_git(local, git_exists, git_is_dir),
{
    git_exists && (local || git_is_dir)
}

/// The saved-command file: `.git/bx` under the repository root, or
/// `.bx-command` in the current directory outside a repository.
pub open spec fn saved_command_location(root: Option<Seq<char>>) -> Seq<char> {
    match root {
        Some(r) => join_path(join_path(r, ".git"@), "bx"@),
        None => ".bx-command"@,
    }
}

/// The path of the saved-command file (see `saved_command_location`).
pub fn saved_command_file(root: Option<&str>) -> (p: String)
    ensures
        p@ == saved_command_location(
            match root {
                Some(r) => Some(r@),
                None => None,
            },
        ),
{
    match root {
        Some(r) => {
            let mut v = chars_of(r);
            push_joined(&mut v, ".git");
            push_joined(&mut v, "bx");
            string_of(v.as_slice())
        },
        None => {
            let v = chars_of(".bx-command");
            string_of(v.as_slice())
        },
    }
}

/// The configuration file: `bx/config.toml` under `$XDG_CONFIG_HOME` when it
/// is set, else `.config/bx/config.toml` under `$HOME`, else `.bx.toml`.
pub open spec fn config_location(xdg: Option<Seq<char>>, home: Option<Seq<char>>) -> Seq<char> {
    match xdg {
        Some(x) => join_path(join_path(x, "bx"@), "config.toml"@),
        None => match home {
            Some(h) => join_path(join_path(join_path(h, ".config"@), "bx"@), "config.toml"@),
            None => ".bx.toml"@,
        },
    }
}

/// The path of the configuration file (see `config_location`), given the
/// values of `XDG_CONFIG_HOME` and `HOME` when they are set.
pub fn config_file_path(xdg: Option<&str>, home: Option<&str>) -> (p: String)
    ensures
        p@ == config_location(
            match xdg {
                Some(x) => Some(x@),
                None => None,
            },
            match home {
                Some(h) => Some(h@),
                None => None,
            },
        ),
{
    match xdg {
        Some(x) => {
            let mut v = chars_of(x);
            push_joined(&mut v, "bx");
            push_joined(&mut v, "config.toml");
            string_of(v.as_slice())
        },
        None => match home {
            Some(h) => {
                let mut v = chars_of(h);
                push_joined(&mut v, ".config");
                push_joined(&mut v, "bx");
                push_joined(&mut v, "config.toml");
                string_of(v.as_slice())
            },
            None => {
                let v = chars_of(".bx.toml");
                string_of(v.as_slice())
            },
        },
    }
}

} // verus!
