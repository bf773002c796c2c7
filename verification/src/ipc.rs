//! Single-instance protocol: a second instance sends the directory it was
//! started with, one path per line, over a Unix socket to the running one,
//! which opens it as a new tab.
use vstd::prelude::*;
use vstd::string::StringExecFns;

use crate::text::{
    chars_of, decimal, lemma_split_concat, lemma_split_without_sep, push_decimal, split_chars,
    split_on, string_from_chars, trim, trim_chars,
};

verus! {

/// The socket of the running instance for user `uid`.
pub open spec fn socket_path_spec(uid: u32) -> Seq<char> {
    "/run/user/"@ + decimal(uid as nat) + "/kova.sock"@
}

/// `/run/user/<uid>/kova.sock`.
pub fn socket_path(uid: u32) -> (p: String)
    ensures
        p@ == socket_path_spec(uid),
{
    let mut digits: Vec<char> = Vec::new();
    push_decimal(&mut digits, uid as u64);
    let mut p = String::from_str("/run/user/");
    let d = string_from_chars(&digits);
    proof {
        assert(digits@ =~= decimal(uid as nat));
    }
    p.append(d.as_str());
    p.append("/kova.sock");
    p
}

/// The line that asks the running instance to open `dir`.
pub fn request_line(dir: &str) -> (line: String)
    ensures
        line@ == dir@ + seq!['\n'],
{
    let mut line = String::from_str(dir);
    line.append("\n");
    proof {
        reveal_strlit("\n");
        assert("\n"@ =~= seq!['\n']);
    }
    line
}

/// The non-empty trimmed lines of `s`.
pub open spec fn nonblank_lines(lines: Seq<Seq<char>>) -> Seq<Seq<char>>
    decreases lines.len(),
{
    if lines.len() == 0 {
        Seq::empty()
    } else {
        let rest = nonblank_lines(lines.drop_last());
        let t = trim(lines.last());
        if t.len() > 0 {
            rest.push(t)
        } else {
            rest
        }
    }
}

/// The directories that a stream of request lines asks to open: every line,
/// trimmed of surrounding whitespace (a `\r` before the newline included),
/// that is not blank.
pub open spec fn received_dirs_spec(s: Seq<char>) -> Seq<Seq<char>> {
    nonblank_lines(split_on(s, '\n'))
}

/// Decodes the requests received on the socket.
pub fn received_dirs(data: &str) -> (dirs: Vec<String>)
    ensures
        dirs.len() == received_dirs_spec(data@).len(),
        forall|i: int| 0 <= i < dirs.len() ==> #[trigger] dirs[i]@ == received_dirs_spec(data@)[i],
{
    let chars = chars_of(data);
    let lines = split_chars(&chars, '\n');
    let ghost sl = split_on(data@, '\n');
    let mut dirs: Vec<String> = Vec::new();
    let mut k: usize = 0;
    while k < lines.len()
        invariant
            lines.len() == sl.len(),
            forall|j: int| 0 <= j < lines.len() ==> #[trigger] lines[j]@ == sl[j],
            k <= lines.len(),
            dirs.len() == nonblank_lines(sl.subrange(0, k as int)).len(),
            forall|i: int|
                0 <= i < dirs.len() ==> #[trigger] dirs[i]@ == nonblank_lines(
                    sl.subrange(0, k as int),
                )[i],
        decreases lines.len() - k,
    {
        let t = trim_chars(&lines[k]);
        proof {
            assert(sl.subrange(0, k + 1).drop_last() =~= sl.subrange(0, k as int));
            assert(sl.subrange(0, k + 1).last() == lines[k as int]@);
        }
        if t.len() > 0 {
            let s = string_from_chars(&t);
            dirs.push(s);
        }
        k = k + 1;
    }
    proof {
        assert(sl.subrange(0, lines.len() as int) =~= sl);
    }
    dirs
}

proof fn lemma_nonblank_single(x: Seq<char>)
    ensures
        nonblank_lines(seq![x]) == (if trim(x).len() > 0 {
            seq![trim(x)]
        } else {
            Seq::<Seq<char>>::empty()
        }),
{
    assert(seq![x].drop_last() =~= Seq::<Seq<char>>::empty());
    assert(nonblank_lines(Seq::<Seq<char>>::empty()) == Seq::<Seq<char>>::empty());
    assert(seq![x].last() == x);
    assert(Seq::<Seq<char>>::empty().push(trim(x)) =~= seq![trim(x)]);
}

proof fn lemma_nonblank_concat(a: Seq<Seq<char>>, b: Seq<Seq<char>>)
    ensures
        nonblank_lines(a + b) == nonblank_lines(a) + nonblank_lines(b),
    decreases b.len(),
{
    if b.len() == 0 {
        assert(a + b =~= a);
        assert(nonblank_lines(a) + nonblank_lines(b) =~= nonblank_lines(a));
    } else {
        assert((a + b).drop_last() =~= a + b.drop_last());
        assert((a + b).last() == b.last());
        lemma_nonblank_concat(a, b.drop_last());
        let t = trim(b.last());
        if t.len() > 0 {
            assert((nonblank_lines(a) + nonblank_lines(b.drop_last())).push(t) =~= nonblank_lines(a)
                + nonblank_lines(b.drop_last()).push(t));
        }
    }
}

/// A request for a directory whose path holds no newline is received as that
/// path, trimmed; a blank path is not received at all.
pub proof fn lemma_request_round_trip(dir: Seq<char>)
    requires
        !dir.contains('\n'),
    ensures
        received_dirs_spec(dir + seq!['\n']) == (if trim(dir).len() > 0 {
            seq![trim(dir)]
        } else {
            Seq::empty()
        }),
{
    lemma_split_without_sep(dir, '\n');
    assert((dir + seq!['\n']).drop_last() =~= dir);
    let parts = split_on(dir + seq!['\n'], '\n');
    assert(parts =~= seq![dir, Seq::<char>::empty()]);
    assert(parts.drop_last() =~= seq![dir]);
    assert(parts.last() == Seq::<char>::empty());
    lemma_nonblank_single(dir);
    assert(trim(Seq::<char>::empty()) =~= Seq::<char>::empty());
}

/// Requests sent one after the other are received in the order they were
/// sent: the directories of a stream are those of its first request followed
/// by those of the rest.
pub proof fn lemma_requests_in_order(first: Seq<char>, rest: Seq<char>)
    ensures
        received_dirs_spec(first + seq!['\n'] + rest) == received_dirs_spec(first + seq!['\n'])
            + received_dirs_spec(rest),
{
    lemma_split_concat(first, rest, '\n');
    lemma_split_concat(first, Seq::<char>::empty(), '\n');
    assert(first + seq!['\n'] + Seq::<char>::empty() =~= first + seq!['\n']);
    lemma_nonblank_concat(split_on(first, '\n'), split_on(rest, '\n'));
    lemma_nonblank_concat(split_on(first, '\n'), split_on(Seq::<char>::empty(), '\n'));
    assert(split_on(Seq::<char>::empty(), '\n') =~= seq![Seq::<char>::empty()]);
    assert(trim(Seq::<char>::empty()) =~= Seq::<char>::empty());
    lemma_nonblank_single(Seq::<char>::empty());
    assert(nonblank_lines(split_on(first, '\n')) + Seq::<Seq<char>>::empty() =~= nonblank_lines(
        split_on(first, '\n'),
    ));
}

} // verus!
