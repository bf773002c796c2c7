//! Desktop integration: the `.desktop` entry that registers the terminal in
//! the application menu and in "Open With" for folders, and where it goes.
use vstd::prelude::*;
use vstd::string::StringExecFns;

use crate::text::chars_of;

verus! {

/// `PathBuf::from(base).join(rel)` for a relative `rel`: `rel` itself for an
/// empty base, else `rel` appended after a separator unless `base` already
/// ends with one.
pub open spec fn path_join(base: Seq<char>, rel: Seq<char>) -> Seq<char> {
    if base.len() == 0 {
        rel
    } else if base.last() == '/' {
        base + rel
    } else {
        base + seq!['/'] + rel
    }
}

/// Joins a relative path onto a base directory.
pub fn join_path(base: &str, rel: &str) -> (p: String)
    ensures
        p@ == path_join(base@, rel@),
{
    let b = chars_of(base);
    if b.len() == 0 {
        return String::from_str(rel);
    }
    let mut p = String::from_str(base);
    if b[b.len() - 1] != '/' {
        p.append("/");
        proof {
            reveal_strlit("/");
            assert("/"@ =~= seq!['/']);
        }
    }
    p.append(rel);
    p
}

/// The application-menu entry under the home directory.
pub fn desktop_path(home: &str) -> (p: String)
    ensures
        p@ == path_join(home@, ".local/share/applications/kova.desktop"@),
{
    join_path(home, ".local/share/applications/kova.desktop")
}

/// The login auto-start entry under the home directory.
pub fn autostart_path(home: &str) -> (p: String)
    ensures
        p@ == path_join(home@, ".config/autostart/kova.desktop"@),
{
    join_path(home, ".config/autostart/kova.desktop")
}

/// The text of the `.desktop` entry before the first executable path.
pub open spec fn entry_head() -> Seq<char> {
    "[Desktop Entry]\nName=Kova\nComment=Fast GPU-accelerated terminal\nExec="@
}

/// The text between the two executable paths.
pub open spec fn entry_middle() -> Seq<char> {
    " %u\nIcon=utilities-terminal\nType=Application\nTerminal=false\nCategories=System;TerminalEmulator;\nMimeType=inode/directory;\nActions=open-here;\n\n[Desktop Action open-here]\nName=Open Terminal Here\nExec="@
}

/// The `.desktop` entry that runs the executable `bin`, for a file (`%u`)
/// and as the "Open Terminal Here" action.
pub fn desktop_entry(bin: &str) -> (entry: String)
    ensures
        entry@ == entry_head() + bin@ + entry_middle() + bin@ + seq!['\n'],
{
    let mut s = String::from_str(
        "[Desktop Entry]\nName=Kova\nComment=Fast GPU-accelerated terminal\nExec=",
    );
    s.append(bin);
    s.append(
        " %u\nIcon=utilities-terminal\nType=Application\nTerminal=false\nCategories=System;TerminalEmulator;\nMimeType=inode/directory;\nActions=open-here;\n\n[Desktop Action open-here]\nName=Open Terminal Here\nExec=",
    );
    s.append(bin);
    s.append("\n");
    proof {
        reveal_strlit("\n");
        assert("\n"@ =~= seq!['\n']);
    }
    s
}

} // verus!
