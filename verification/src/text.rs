//! Character-level text helpers shared by the key-binding parser, the IPC
//! protocol and the status-bar labels: whitespace trimming, ASCII case
//! folding, splitting on a separator and decimal formatting.
use vstd::prelude::*;

verus! {

/// `char::is_whitespace`: the Unicode `White_Space` property.
pub open spec fn is_white_space(c: char) -> bool {
    let u = c as u32;
    ||| (0x9 <= u && u <= 0xD)
    ||| u == 0x20
    ||| u == 0x85
    ||| u == 0xA0
    ||| u == 0x1680
    ||| (0x2000 <= u && u <= 0x200A)
    ||| u == 0x2028
    ||| u == 0x2029
    ||| u == 0x202F
    ||| u == 0x205F
    ||| u == 0x3000
}

/// The text with its leading whitespace removed.
pub open spec fn trim_start(s: Seq<char>) -> Seq<char>
    decreases s.len(),
{
    if s.len() > 0 && is_white_space(s[0]) {
        trim_start(s.drop_first())
    } else {
        s
    }
}

/// The text with its trailing whitespace removed.
pub open spec fn trim_end(s: Seq<char>) -> Seq<char>
    decreases s.len(),
{
    if s.len() > 0 && is_white_space(s.last()) {
        trim_end(s.drop_last())
    } else {
        s
    }
}

/// `str::trim`: leading and trailing whitespace removed.
pub open spec fn trim(s: Seq<char>) -> Seq<char> {
    trim_end(trim_start(s))
}

/// `char::to_ascii_lowercase`.
pub open spec fn ascii_lower(c: char) -> char {
    if 'A' <= c && c <= 'Z' {
        ((c as u32) + 32) as char
    } else {
        c
    }
}

/// `str::to_ascii_lowercase`, character by character.
pub open spec fn lower_seq(s: Seq<char>) -> Seq<char> {
    Seq::new(s.len(), |i: int| ascii_lower(s[i]))
}

/// `str::split(sep)`: the pieces between occurrences of `sep`; there is always
/// at least one piece.
pub open spec fn split_on(s: Seq<char>, sep: char) -> Seq<Seq<char>>
    decreases s.len(),
{
    if s.len() == 0 {
        seq![Seq::<char>::empty()]
    } else {
        let rest = split_on(s.drop_last(), sep);
        if s.last() == sep {
            rest.push(Seq::<char>::empty())
        } else {
            rest.update(rest.len() - 1, rest.last().push(s.last()))
        }
    }
}

/// The ASCII digit for `d < 10`.
pub open spec fn digit_char(d: nat) -> char {
    ((48 + d) as u32) as char
}

/// Decimal notation of `n`, without leading zeros.
pub open spec fn decimal(n: nat) -> Seq<char>
    decreases n,
{
    if n < 10 {
        seq![digit_char(n)]
    } else {
        decimal(n / 10).push(digit_char(n % 10))
    }
}

pub proof fn lemma_split_nonempty(s: Seq<char>, sep: char)
    ensures
        split_on(s, sep).len() >= 1,
    decreases s.len(),
{
    if s.len() > 0 {
        lemma_split_nonempty(s.drop_last(), sep);
    }
}

/// Lower-casing a text and splitting it at a separator that is no ASCII
/// letter gives the lower-cased pieces.
pub proof fn lemma_split_lower(s: Seq<char>, sep: char)
    requires
        !('A' <= sep && sep <= 'Z'),
        !('a' <= sep && sep <= 'z'),
    ensures
        split_on(lower_seq(s), sep).len() == split_on(s, sep).len(),
        forall|i: int|
            0 <= i < split_on(s, sep).len() ==> #[trigger] split_on(lower_seq(s), sep)[i]
                == lower_seq(split_on(s, sep)[i]),
    decreases s.len(),
{
    lemma_split_nonempty(s, sep);
    if s.len() > 0 {
        let t = s.drop_last();
        lemma_split_lower(t, sep);
        lemma_split_nonempty(t, sep);
        let ls = lower_seq(s);
        assert(ls.drop_last() =~= lower_seq(t));
        assert(ls.last() == ascii_lower(s.last()));
        if 'A' <= s.last() && s.last() <= 'Z' {
            assert('a' <= ascii_lower(s.last()) && ascii_lower(s.last()) <= 'z');
        }
        assert((ascii_lower(s.last()) == sep) == (s.last() == sep));
        let a = split_on(t, sep);
        let b = split_on(lower_seq(t), sep);
        assert(split_on(ls, sep) == if ls.last() == sep {
            b.push(Seq::<char>::empty())
        } else {
            b.update(b.len() - 1, b.last().push(ls.last()))
        });
        if s.last() == sep {
            assert(lower_seq(Seq::<char>::empty()) =~= Seq::<char>::empty());
        } else {
            assert forall|i: int| 0 <= i < split_on(s, sep).len() implies #[trigger] split_on(
                lower_seq(s),
                sep,
            )[i] == lower_seq(split_on(s, sep)[i]) by {
                if i == a.len() - 1 {
                    assert(lower_seq(a.last().push(s.last())) =~= b.last().push(
                        ascii_lower(s.last()),
                    ));
                }
            }
        }
    }
}

/// Lower-casing commutes with removing leading whitespace.
proof fn lemma_trim_start_lower(s: Seq<char>)
    ensures
        trim_start(lower_seq(s)) == lower_seq(trim_start(s)),
    decreases s.len(),
{
    if s.len() > 0 {
        assert(lower_seq(s).drop_first() =~= lower_seq(s.drop_first()));
        lemma_trim_start_lower(s.drop_first());
    }
}

/// Lower-casing commutes with removing trailing whitespace.
proof fn lemma_trim_end_lower(s: Seq<char>)
    ensures
        trim_end(lower_seq(s)) == lower_seq(trim_end(s)),
    decreases s.len(),
{
    if s.len() > 0 {
        assert(lower_seq(s).drop_last() =~= lower_seq(s.drop_last()));
        lemma_trim_end_lower(s.drop_last());
    }
}

/// Trimming and lower-casing a lower-cased text gives what trimming and
/// lower-casing the text gives.
pub proof fn lemma_trim_lower_idempotent(s: Seq<char>)
    ensures
        lower_seq(trim(lower_seq(s))) == lower_seq(trim(s)),
{
    lemma_trim_start_lower(s);
    lemma_trim_end_lower(trim_start(s));
    assert(lower_seq(lower_seq(trim(s))) =~= lower_seq(trim(s)));
}

/// A text without the separator is a single piece.
pub proof fn lemma_split_without_sep(s: Seq<char>, sep: char)
    requires
        !s.contains(sep),
    ensures
        split_on(s, sep) == seq![s],
    decreases s.len(),
{
    if s.len() > 0 {
        assert(!s.drop_last().contains(sep)) by {
            if s.drop_last().contains(sep) {
                let i = choose|i: int| 0 <= i < s.drop_last().len() && s.drop_last()[i] == sep;
                assert(s[i] == sep);
            }
        }
        lemma_split_without_sep(s.drop_last(), sep);
        assert(s.last() != sep) by {
            assert(s[s.len() - 1] == s.last());
        }
        assert(seq![s.drop_last()].last().push(s.last()) =~= s);
        assert(seq![s.drop_last()].update(0, s) =~= seq![s]);
        assert(split_on(s, sep) == seq![s.drop_last()].update(
            0,
            seq![s.drop_last()].last().push(s.last()),
        ));
    } else {
        assert(s =~= Seq::<char>::empty());
    }
}

/// Splitting at a separator splits the text around it.
pub proof fn lemma_split_concat(x: Seq<char>, y: Seq<char>, sep: char)
    ensures
        split_on(x + seq![sep] + y, sep) == split_on(x, sep) + split_on(y, sep),
    decreases y.len(),
{
    if y.len() == 0 {
        assert((x + seq![sep] + y).drop_last() =~= x);
        assert(x + seq![sep] + y =~= (x + seq![sep] + y));
        assert(split_on(y, sep) =~= seq![Seq::<char>::empty()]);
        assert(split_on(x, sep).push(Seq::<char>::empty()) =~= split_on(x, sep) + seq![Seq::<char>::empty()]);
    } else {
        let z = x + seq![sep] + y;
        assert(z.drop_last() =~= x + seq![sep] + y.drop_last());
        assert(z.last() == y.last());
        lemma_split_concat(x, y.drop_last(), sep);
        lemma_split_nonempty(y.drop_last(), sep);
        lemma_split_nonempty(x, sep);
        let a = split_on(x, sep);
        let b = split_on(y.drop_last(), sep);
        if y.last() == sep {
            assert((a + b).push(Seq::<char>::empty()) =~= a + b.push(Seq::<char>::empty()));
        } else {
            assert((a + b).update((a + b).len() - 1, (a + b).last().push(y.last())) =~= a + b.update(
                b.len() - 1,
                b.last().push(y.last()),
            ));
        }
    }
}

/// The characters of a string slice.
pub fn chars_of(s: &str) -> (v: Vec<char>)
    ensures
        v@ == s@,
{
    let mut v: Vec<char> = Vec::new();
    for c in it: s.chars()
        invariant
            v@ == it.seq().take(it.index() as int),
    {
        v.push(c);
    }
    proof {
        assert(v@ =~= s@);
    }
    v
}

/// `String::from_iter` over the characters of `v` (through `collect`): the
/// string holds exactly those characters, in order.
#[verifier::external_body]
pub(crate) fn string_from_chars(v: &Vec<char>) -> (s: String)
    ensures
        s@ == v@,
{
    v.iter().collect()
}

/// Exec counterpart of [`is_white_space`].
pub fn is_white_space_char(c: char) -> (b: bool)
    ensures
        b == is_white_space(c),
{
    let u = c as u32;
    (0x9 <= u && u <= 0xD) || u == 0x20 || u == 0x85 || u == 0xA0 || u == 0x1680 || (0x2000 <= u
        && u <= 0x200A) || u == 0x2028 || u == 0x2029 || u == 0x202F || u == 0x205F || u == 0x3000
}

proof fn lemma_trim_start_step(s: Seq<char>, i: int)
    requires
        0 <= i < s.len(),
        is_white_space(s[i]),
    ensures
        trim_start(s.subrange(i, s.len() as int)) == trim_start(s.subrange(i + 1, s.len() as int)),
{
    assert(s.subrange(i, s.len() as int).drop_first() =~= s.subrange(i + 1, s.len() as int));
}

proof fn lemma_trim_end_step(s: Seq<char>, j: int)
    requires
        0 < j <= s.len(),
        is_white_space(s[j - 1]),
    ensures
        trim_end(s.subrange(0, j)) == trim_end(s.subrange(0, j - 1)),
{
    assert(s.subrange(0, j).drop_last() =~= s.subrange(0, j - 1));
}

/// `str::trim` on a character sequence.
pub fn trim_chars(s: &Vec<char>) -> (t: Vec<char>)
    ensures
        t@ == trim(s@),
{
    let n = s.len();
    let mut i: usize = 0;
    proof {
        assert(s@.subrange(0, n as int) =~= s@);
    }
    while i < n && is_white_space_char(s[i])
        invariant
            n == s.len(),
            i <= n,
            trim_start(s@) == trim_start(s@.subrange(i as int, n as int)),
        decreases n - i,
    {
        proof {
            lemma_trim_start_step(s@, i as int);
        }
        i = i + 1;
    }
    let ghost mid = s@.subrange(i as int, n as int);
    assert(trim_start(s@) == mid) by {
        assert(s@.subrange(i as int, n as int) == mid);
    }
    let mut j: usize = n;
    while j > i && is_white_space_char(s[j - 1])
        invariant
            n == s.len(),
            i <= j <= n,
            mid == s@.subrange(i as int, n as int),
            trim_end(mid) == trim_end(s@.subrange(i as int, j as int)),
        decreases j - i,
    {
        proof {
            let sub = s@.subrange(i as int, j as int);
            assert(sub[j - i - 1] == s@[j - 1]);
            lemma_trim_end_step(sub, (j - i) as int);
            assert(sub.subrange(0, (j - i) as int) =~= sub);
            assert(sub.subrange(0, (j - i - 1) as int) =~= s@.subrange(i as int, j - 1));
        }
        j = j - 1;
    }
    let mut t: Vec<char> = Vec::new();
    let mut k: usize = i;
    while k < j
        invariant
            n == s.len(),
            i <= k <= j <= n,
            t@ == s@.subrange(i as int, k as int),
        decreases j - k,
    {
        t.push(s[k]);
        proof {
            assert(t@ =~= s@.subrange(i as int, k + 1));
        }
        k = k + 1;
    }
    proof {
        let sub = s@.subrange(i as int, j as int);
        if j > i {
            assert(sub.last() == s@[j - 1]);
        }
        assert(trim_end(sub) == sub);
    }
    t
}

/// `char::to_ascii_lowercase`.
pub fn ascii_lower_char(c: char) -> (r: char)
    ensures
        r == ascii_lower(c),
{
    if 'A' <= c && c <= 'Z' {
        let u: u8 = (c as u8) + 32;
        u as char
    } else {
        c
    }
}

/// `str::to_ascii_lowercase` on a character sequence.
pub fn lower_chars(s: &Vec<char>) -> (t: Vec<char>)
    ensures
        t@ == lower_seq(s@),
{
    let mut t: Vec<char> = Vec::new();
    let mut k: usize = 0;
    while k < s.len()
        invariant
            k <= s.len(),
            t@ == lower_seq(s@.subrange(0, k as int)),
        decreases s.len() - k,
    {
        let c = ascii_lower_char(s[k]);
        t.push(c);
        k = k + 1;
        proof {
            assert(t@ =~= lower_seq(s@.subrange(0, k as int)));
        }
    }
    proof {
        assert(s@.subrange(0, s.len() as int) =~= s@);
    }
    t
}

/// Equality of a character sequence with a literal.
pub fn chars_eq(a: &Vec<char>, b: &[char]) -> (r: bool)
    ensures
        r == (a@ == b@),
{
    if a.len() != b.len() {
        return false;
    }
    let mut k: usize = 0;
    while k < a.len()
        invariant
            a.len() == b.len(),
            k <= a.len(),
            forall|m: int| 0 <= m < k ==> a@[m] == b@[m],
        decreases a.len() - k,
    {
        if a[k] != b[k] {
            return false;
        }
        k = k + 1;
    }
    proof {
        assert(a@ =~= b@);
    }
    true
}

/// `str::split(sep)` on a character sequence.
pub fn split_chars(s: &Vec<char>, sep: char) -> (parts: Vec<Vec<char>>)
    ensures
        parts.len() == split_on(s@, sep).len(),
        forall|i: int| 0 <= i < parts.len() ==> #[trigger] parts[i]@ == split_on(s@, sep)[i],
{
    let mut done: Vec<Vec<char>> = Vec::new();
    let mut cur: Vec<char> = Vec::new();
    let mut k: usize = 0;
    while k < s.len()
        invariant
            k <= s.len(),
            split_on(s@.subrange(0, k as int), sep).len() == done.len() + 1,
            forall|i: int|
                0 <= i < done.len() ==> #[trigger] done[i]@ == split_on(
                    s@.subrange(0, k as int),
                    sep,
                )[i],
            cur@ == split_on(s@.subrange(0, k as int), sep).last(),
        decreases s.len() - k,
    {
        let c = s[k];
        let ghost prev = s@.subrange(0, k as int);
        let ghost next = s@.subrange(0, k + 1);
        proof {
            assert(next.drop_last() =~= prev);
            assert(next.last() == c);
        }
        if c == sep {
            let finished = cur;
            done.push(finished);
            cur = Vec::new();
            proof {
                assert(split_on(next, sep) == split_on(prev, sep).push(Seq::<char>::empty()));
                assert forall|i: int| 0 <= i < done.len() implies #[trigger] done[i]@ == split_on(
                    next,
                    sep,
                )[i] by {}
            }
        } else {
            cur.push(c);
            proof {
                lemma_split_nonempty(prev, sep);
                let rest = split_on(prev, sep);
                assert(split_on(next, sep) == rest.update(rest.len() - 1, rest.last().push(c)));
                assert forall|i: int| 0 <= i < done.len() implies #[trigger] done[i]@ == split_on(
                    next,
                    sep,
                )[i] by {}
            }
        }
        k = k + 1;
    }
    done.push(cur);
    proof {
        assert(s@.subrange(0, s.len() as int) =~= s@);
        assert forall|i: int| 0 <= i < done.len() implies #[trigger] done[i]@ == split_on(
            s@,
            sep,
        )[i] by {}
    }
    done
}

/// The digit character for `d < 10`.
fn digit(d: u64) -> (c: char)
    requires
        d < 10,
    ensures
        c == digit_char(d as nat),
{
    (48u8 + (d as u8)) as char
}

/// Appends the decimal notation of `n`.
pub fn push_decimal(out: &mut Vec<char>, n: u64)
    ensures
        final(out)@ == old(out)@ + decimal(n as nat),
    decreases n,
{
    if n >= 10 {
        push_decimal(out, n / 10);
    }
    let c = digit(n % 10);
    out.push(c);
    proof {
        if n >= 10 {
            assert(decimal(n as nat) == decimal((n / 10) as nat).push(digit_char((n % 10) as nat)));
        }
        assert(out@ =~= old(out)@ + decimal(n as nat));
    }
}

} // verus!
