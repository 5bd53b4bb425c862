use vstd::prelude::*;
use crate::text::{ends_with, has_prefix, has_suffix, strip_prefix};
use crate::types::texts;

verus! {

/// The shells whose history files are told apart.
#[derive(Debug, Clone, Copy, PartialEq, Eq, Structural)]
pub enum ShellKind {
    Zsh,
    Fish,
    Other,
}

/// The kind of shell named by a `SHELL` value: by how the value ends.
pub open spec fn kind_of(shell: Seq<char>) -> ShellKind {
    if has_suffix(shell, "zsh"@) {
        ShellKind::Zsh
    } else if has_suffix(shell, "fish"@) {
        ShellKind::Fish
    } else {
        ShellKind::Other
    }
}

/// The kind of shell named by a `SHELL` value.
pub fn shell_kind(shell: &str) -> (r: ShellKind)
    ensures
        r == kind_of(shell@),
{
    if ends_with(shell, "zsh") {
        ShellKind::Zsh
    } else if ends_with(shell, "fish") {
        ShellKind::Fish
    } else {
        ShellKind::Other
    }
}

/// The history file to read, before `~` is expanded: fish keeps its own;
/// the others use `HISTFILE` when it is set, else their default file.
pub open spec fn history_path(kind: ShellKind, histfile: Option<Seq<char>>) -> Seq<char> {
    match kind {
        ShellKind::Fish => "~/.local/share/fish/fish_history"@,
        ShellKind::Zsh => match histfile {
            Some(h) => h,
            None => "~/.zsh_history"@,
        },
        ShellKind::Other => match histfile {
            Some(h) => h,
            None => "~/.bash_history"@,
        },
    }
}

/// The history file for a shell kind, given the value of `HISTFILE` if set.
pub fn history_file(kind: ShellKind, histfile: Option<String>) -> (r: String)
    ensures
        r@ == history_path(kind, match histfile {
            Some(h) => Some(h@),
            None => None,
        }),
{
    match kind {
        ShellKind::Fish => String::from_str("~/.local/share/fish/fish_history"),
        ShellKind::Zsh => match histfile {
            Some(h) => h,
            None => String::from_str("~/.zsh_history"),
        },
        ShellKind::Other => match histfile {
            Some(h) => h,
            None => String::from_str("~/.bash_history"),
        },
    }
}

/// The commands of fish history lines: the text after "- cmd: " on each line
/// that starts with it.
pub open spec fn fish_commands(lines: Seq<Seq<char>>) -> Seq<Seq<char>>
    decreases lines.len(),
{
    if lines.len() == 0 {
        Seq::empty()
    } else {
        let r = fish_commands(lines.drop_last());
        if has_prefix(lines.last(), "- cmd: "@) {
            r.push(lines.last().skip("- cmd: "@.len() as int))
        } else {
            r
        }
    }
}

/// The last `n` entries of a list (all of them when it has fewer).
pub open spec fn last_n<A>(s: Seq<A>, n: nat) -> Seq<A> {
    if s.len() <= n {
        s
    } else {
        s.skip(s.len() - n)
    }
}

/// The commands of the history file's lines, oldest first.
pub open spec fn commands_of(kind: ShellKind, lines: Seq<Seq<char>>) -> Seq<Seq<char>> {
    if kind == ShellKind::Fish {
        fish_commands(lines)
    } else {
        lines
    }
}

/// The at most `n` most recent commands of a history file's lines, oldest
/// first.
pub fn recent_commands(kind: ShellKind, lines: Vec<String>, n: usize) -> (r: Vec<String>)
    ensures
        texts(r@) == last_n(commands_of(kind, texts(lines@)), n as nat),
{
    let mut cmds: Vec<String> = Vec::new();
    let mut i: usize = 0;
    while i < lines.len()
        invariant
            i <= lines@.len(),
            texts(cmds@) == commands_of(kind, texts(lines@).take(i as int)),
        decreases lines.len() - i,
    {
        assert(texts(lines@).take(i + 1).drop_last() =~= texts(lines@).take(i as int));
        if kind == ShellKind::Fish {
            match strip_prefix(lines[i].as_str(), "- cmd: ") {
                Some(c) => cmds.push(c),
                None => {},
            }
        } else {
            cmds.push(lines[i].clone());
        }
        i += 1;
        assert(texts(cmds@) =~= commands_of(kind, texts(lines@).take(i as int)));
    }
    assert(texts(lines@).take(i as int) =~= texts(lines@));
    let len = cmds.len();
    if len <= n {
        cmds
    } else {
        let ghost all = cmds@;
        let r = cmds.split_off(len - n);
        assert(texts(r@) =~= texts(all).skip(len - n));
        r
    }
}

} // verus!
