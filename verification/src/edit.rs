//! Replacing a part of a text, as the editing tool does it.
//!
//! The part is looked for as it is; where it is not found, without the line
//! numbers that reading a file shows; and then line by line with straight
//! quotes for curly ones. What the user approves and what is written come from
//! the same function.

use crate::chars::{
    chars_of, copied, digit, find_sub, is_digit, join, joined, pieces, position_sub_from, push_all,
    replace, rows, same, split, stands_at, string_of,
};
use vstd::prelude::*;
use vstd::slice::slice_subrange;

verus! {

/// Why a part to be replaced was not accepted.
#[derive(Clone, Copy, Debug, PartialEq, Eq, Structural)]
pub enum EditMatchError {
    NotFound,
    NotUnique { count: usize },
}

/// The outcome of an edit.
#[derive(Debug)]
pub struct EditOutcome {
    pub after: String,
    /// How many places were replaced.
    pub replaced: usize,
    /// What was tolerated to find the part.
    pub tier_note: Option<&'static str>,
}

/// What an `EditOutcome` says.
#[verifier::ext_equal]
pub struct OutcomeV {
    pub after: Seq<char>,
    pub replaced: nat,
    pub tier_note: Option<Seq<char>>,
}

impl View for EditOutcome {
    type V = OutcomeV;

    open spec fn view(&self) -> OutcomeV {
        OutcomeV {
            after: self.after@,
            replaced: self.replaced as nat,
            tier_note: crate::command::opt_reason(self.tier_note),
        }
    }
}

// ---------------------------------------------------------------------------
// Finding and replacing
// ---------------------------------------------------------------------------

/// How often `p` stands in `s`, counted from the left without overlap; an
/// empty `p` stands before every character and at the end.
pub open spec fn occurrences(s: Seq<char>, p: Seq<char>) -> nat
    decreases s.len(),
{
    if p.len() == 0 {
        s.len() + 1
    } else {
        match find_sub(s, p) {
            Some(k) => if 0 <= k && k + p.len() <= s.len() {
                1 + occurrences(s.skip(k + p.len()), p)
            } else {
                0
            },
            None => 0,
        }
    }
}

/// What is left behind a replaced part: where the part is deleted and is no
/// whole line with its ending, the line ending behind it goes too.
pub open spec fn left_behind(rest: Seq<char>, old: Seq<char>, new: Seq<char>) -> Seq<char> {
    if new.len() == 0 && !(old.len() > 0 && old.last() == '\n') && rest.len() > 0 && rest[0] == '\n' {
        rest.skip(1)
    } else {
        rest
    }
}

/// `s` with the first `old` replaced by `new`, or with every one, and how many
/// were.
pub open spec fn with_replaced(s: Seq<char>, old: Seq<char>, new: Seq<char>, every: bool) -> (
    Seq<char>,
    nat,
)
    decreases s.len(),
{
    match find_sub(s, old) {
        None => (s, 0),
        Some(k) => {
            let rest = left_behind(s.skip(k + old.len()), old, new);
            if every && old.len() > 0 && 0 <= k && k + old.len() <= s.len() {
                let (tail, n) = with_replaced(rest, old, new, every);
                (s.take(k) + new + tail, n + 1)
            } else {
                (s.take(k) + new + rest, 1)
            }
        },
    }
}

/// Counts how often `p` stands in `s`.
pub(crate) fn count_of(s: &[char], p: &[char]) -> (r: usize)
    requires
        p@.len() == 0 ==> s@.len() < usize::MAX,
    ensures
        r == occurrences(s@, p@),
{
    if p.len() == 0 {
        return s.len() + 1;
    }
    let mut n: usize = 0;
    let mut rest: &[char] = s;
    let total: usize = s.len();
    loop
        invariant
            p@.len() > 0,
            n + occurrences(rest@, p@) == occurrences(s@, p@),
            n + rest@.len() <= total,
        decreases rest.len(),
    {
        match position_sub_from(rest, p, 0) {
            Some(k) => {
                let ghost whole = rest@;
                rest = slice_subrange(rest, k + p.len(), rest.len());
                n = n + 1;
                proof {
                    assert(rest@ =~= whole.skip(k + p.len()));
                }
            },
            None => {
                return n;
            },
        }
    }
}

/// Replaces the first `old`, or every one.
pub fn apply_replacement(content: &[char], old: &[char], new: &[char], every: bool) -> (r: (
    Vec<char>,
    usize,
))
    requires
        old@.len() > 0 || !every,
    ensures
        (r.0@, r.1 as nat) == with_replaced(content@, old@, new@, every),
{
    let mut out: Vec<char> = Vec::new();
    let mut rest: &[char] = content;
    let mut n: usize = 0;
    let total: usize = content.len();
    let ghost goal = with_replaced(content@, old@, new@, every);
    proof {
        assert(out@ + with_replaced(rest@, old@, new@, every).0 =~= goal.0);
    }
    loop
        invariant
            old@.len() > 0 || !every,
            goal == with_replaced(content@, old@, new@, every),
            out@ + with_replaced(rest@, old@, new@, every).0 == goal.0,
            n + with_replaced(rest@, old@, new@, every).1 == goal.1,
            n == 0 || every,
            n + rest@.len() <= total,
            total == content@.len(),
        decreases rest.len(),
    {
        match position_sub_from(rest, old, 0) {
            None => {
                push_all(&mut out, rest);
                return (out, n);
            },
            Some(k) => {
                let ghost whole = rest@;
                let ghost before = out@;
                push_all(&mut out, slice_subrange(rest, 0, k));
                push_all(&mut out, new);
                let mut tail: &[char] = slice_subrange(rest, k + old.len(), rest.len());
                proof {
                    assert(whole.subrange(0, k as int) =~= whole.take(k as int));
                    assert(tail@ =~= whole.skip(k + old.len()));
                }
                if new.len() == 0 && !(old.len() > 0 && old[old.len() - 1] == '\n') && tail.len()
                    > 0 && tail[0] == '\n' {
                    let ghost t = tail@;
                    tail = slice_subrange(tail, 1, tail.len());
                    proof {
                        assert(tail@ =~= t.skip(1));
                    }
                }
                rest = tail;
                if !every {
                    push_all(&mut out, rest);
                    proof {
                        assert(out@ =~= before + (whole.take(k as int) + new@ + rest@));
                    }
                    return (out, 1);
                }
                n = n + 1;
                proof {
                    let deep = with_replaced(rest@, old@, new@, every);
                    assert(out@ + deep.0 =~= before + (whole.take(k as int) + new@ + deep.0));
                }
            },
        }
    }
}

// ---------------------------------------------------------------------------
// Line numbers
// ---------------------------------------------------------------------------

/// How many digits `s` begins with.
pub open spec fn digit_len(s: Seq<char>) -> int
    decreases s.len(),
{
    if s.len() == 0 || !is_digit(s[0]) {
        0
    } else {
        1 + digit_len(s.skip(1))
    }
}

/// A line without its number: digits, and a tab or a colon behind them.
pub open spec fn unnumbered(line: Seq<char>) -> Option<Seq<char>> {
    let n = digit_len(line);
    if n > 0 && n < line.len() && (line[n] == '\t' || line[n] == ':') {
        Some(line.skip(n + 1))
    } else {
        None
    }
}

/// Lines without their numbers, where each has one.
pub open spec fn all_unnumbered(v: Seq<Seq<char>>) -> Option<Seq<Seq<char>>>
    decreases v.len(),
{
    if v.len() == 0 {
        Some(Seq::empty())
    } else {
        match (all_unnumbered(v.drop_last()), unnumbered(v.last())) {
            (Some(l), Some(t)) => Some(l.push(t)),
            _ => None,
        }
    }
}

/// `s` without one line feed at its end.
pub open spec fn strip_lf(s: Seq<char>) -> Seq<char> {
    if s.len() > 0 && s.last() == '\n' {
        s.drop_last()
    } else {
        s
    }
}

/// `s` without the line numbers that reading shows, where every line has one
/// and something is left.
pub open spec fn without_numbers(s: Seq<char>) -> Option<Seq<char>> {
    match all_unnumbered(split(strip_lf(s), '\n')) {
        None => None,
        Some(l) => {
            let t = join(l, "\n"@);
            if t.len() == 0 {
                None
            } else if s.len() > 0 && s.last() == '\n' {
                Some(t.push('\n'))
            } else {
                Some(t)
            }
        },
    }
}

fn drop_lf(s: &[char]) -> (r: &[char])
    ensures
        r@ == strip_lf(s@),
{
    if s.len() > 0 && s[s.len() - 1] == '\n' {
        proof {
            assert(s@.drop_last() =~= s@.subrange(0, s.len() - 1));
        }
        slice_subrange(s, 0, s.len() - 1)
    } else {
        s
    }
}

fn drop_number(line: &[char]) -> (r: Option<Vec<char>>)
    ensures
        match r {
            Some(t) => unnumbered(line@) == Some(t@),
            None => unnumbered(line@) is None,
        },
{
    let mut n: usize = 0;
    proof {
        assert(line@.skip(0) =~= line@);
    }
    while n < line.len() && digit(line[n])
        invariant
            n <= line.len(),
            digit_len(line@) == n + digit_len(line@.skip(n as int)),
        decreases line.len() - n,
    {
        proof {
            assert(line@.skip(n as int).skip(1) =~= line@.skip(n as int + 1));
        }
        n = n + 1;
    }
    if n > 0 && n < line.len() && (line[n] == '\t' || line[n] == ':') {
        proof {
            assert(line@.skip(n as int + 1) =~= line@.subrange(n as int + 1, line.len() as int));
        }
        Some(copied(slice_subrange(line, n + 1, line.len())))
    } else {
        None
    }
}

/// Takes away the line numbers that reading shows.
pub fn strip_line_number_prefixes(s: &[char]) -> (r: Option<Vec<char>>)
    ensures
        match r {
            Some(t) => without_numbers(s@) == Some(t@),
            None => without_numbers(s@) is None,
        },
{
    let body = drop_lf(s);
    let parts = pieces(body, '\n');
    let ghost all = rows(parts@);
    let mut out: Vec<Vec<char>> = Vec::new();
    let mut bad = false;
    proof {
        assert(rows(out@) =~= Seq::<Seq<char>>::empty());
    }
    for i in 0..parts.len()
        invariant
            all == rows(parts@),
            bad ==> all_unnumbered(all.take(i as int)) is None,
            !bad ==> all_unnumbered(all.take(i as int)) == Some(rows(out@)),
    {
        let ghost before = rows(out@);
        proof {
            assert(all.take(i as int + 1).drop_last() =~= all.take(i as int));
            assert(all.take(i as int + 1).last() == parts@[i as int]@);
        }
        match drop_number(parts[i].as_slice()) {
            Some(t) => {
                out.push(t);
                proof {
                    assert(rows(out@) =~= before.push(t@));
                }
            },
            None => {
                bad = true;
            },
        }
    }
    proof {
        assert(all.take(parts@.len() as int) =~= all);
    }
    if bad {
        return None;
    }
    let mut t = joined(out.as_slice(), "\n");
    if t.len() == 0 {
        return None;
    }
    if s.len() > 0 && s[s.len() - 1] == '\n' {
        t.push('\n');
    }
    Some(t)
}

// ---------------------------------------------------------------------------
// Quotes
// ---------------------------------------------------------------------------

/// A straight quote for a curly one.
pub open spec fn straight(c: char) -> char {
    if c == '\u{2018}' || c == '\u{2019}' {
        '\''
    } else if c == '\u{201C}' || c == '\u{201D}' {
        '"'
    } else {
        c
    }
}

/// `s` with straight quotes.
pub open spec fn straightened(s: Seq<char>) -> Seq<char> {
    s.map_values(|c: char| straight(c))
}

/// Makes the quotes straight.
pub fn normalize_quotes(s: &[char]) -> (r: Vec<char>)
    ensures
        r@ == straightened(s@),
{
    let mut out: Vec<char> = Vec::new();
    for i in 0..s.len()
        invariant
            out.len() == i,
            forall|k: int| 0 <= k < i ==> out@[k] == straight(s@[k]),
    {
        let c = s[i];
        if c == '\u{2018}' || c == '\u{2019}' {
            out.push('\'');
        } else if c == '\u{201C}' || c == '\u{201D}' {
            out.push('"');
        } else {
            out.push(c);
        }
    }
    proof {
        assert(out@ =~= straightened(s@));
    }
    out
}

/// Where line `i` begins.
pub open spec fn line_start(v: Seq<Seq<char>>, i: int) -> int
    decreases i,
{
    if i <= 0 {
        0
    } else {
        line_start(v, i - 1) + v[i - 1].len() + 1
    }
}

/// Whether the lines `p` stand in `v` at line `i`, up to the shape of quotes.
pub open spec fn lines_at(v: Seq<Seq<char>>, p: Seq<Seq<char>>, i: int) -> bool {
    forall|j: int|
        0 <= j < p.len() ==> straightened(#[trigger] v[i + j]) == straightened(p[j])
}

/// The first and last places (the end not counted) in the text of `n` lines
/// from line `i` on.
pub open spec fn window(v: Seq<Seq<char>>, i: int, n: int) -> (int, int) {
    (line_start(v, i), line_start(v, i + n - 1) + v[i + n - 1].len())
}

/// The windows, from the first `m` lines at which one can begin, in which the
/// lines `p` stand up to the shape of quotes.
pub open spec fn windows(v: Seq<Seq<char>>, p: Seq<Seq<char>>, m: nat) -> Seq<(int, int)>
    decreases m,
{
    if m == 0 {
        Seq::empty()
    } else {
        let i = (m - 1) as int;
        let before = windows(v, p, (m - 1) as nat);
        if lines_at(v, p, i) {
            before.push(window(v, i, p.len() as int))
        } else {
            before
        }
    }
}

/// The windows of whole lines of `content` that are `old` up to the shape of
/// quotes.
pub open spec fn quote_windows(content: Seq<char>, old: Seq<char>) -> Seq<(int, int)> {
    let v = split(content, '\n');
    let p = split(strip_lf(old), '\n');
    if v.len() < p.len() {
        Seq::empty()
    } else {
        windows(v, p, (v.len() - p.len() + 1) as nat)
    }
}

proof fn lemma_split_len(s: Seq<char>, c: char)
    ensures
        split(s, c).len() >= 1,
        line_start(split(s, c), split(s, c).len() as int) == s.len() + 1,
    decreases s.len(),
{
    crate::chars::lemma_find_from(s, c, 0);
    match crate::chars::find(s, c) {
        Some(k) => {
            let rest = split(s.skip(k + 1), c);
            lemma_split_len(s.skip(k + 1), c);
            let v = split(s, c);
            assert(v =~= seq![s.take(k)] + rest);
            lemma_start_shift(v, rest, rest.len() as int);
        },
        None => {
            let v = split(s, c);
            assert(line_start(v, 1) == line_start(v, 0) + v[0].len() + 1);
        },
    }
}

proof fn lemma_start_shift(v: Seq<Seq<char>>, rest: Seq<Seq<char>>, i: int)
    requires
        v.len() == rest.len() + 1,
        0 <= i <= rest.len(),
        forall|j: int| 0 <= j < rest.len() ==> v[j + 1] == #[trigger] rest[j],
    ensures
        line_start(v, i + 1) == v[0].len() + 1 + line_start(rest, i),
    decreases i,
{
    if i > 0 {
        lemma_start_shift(v, rest, i - 1);
        assert(v[i - 1 + 1] == rest[i - 1]);
    } else {
        assert(line_start(v, 1) == line_start(v, 0) + v[0].len() + 1);
    }
}

proof fn lemma_start_mono(v: Seq<Seq<char>>, i: int, j: int)
    requires
        0 <= i <= j,
    ensures
        line_start(v, i) + (j - i) <= line_start(v, j),
        line_start(v, i) >= 0,
    decreases j,
{
    if i < j {
        lemma_start_mono(v, i, j - 1);
    } else if i > 0 {
        lemma_start_mono(v, i - 1, j - 1);
    }
}

/// A window is a part of the text.
pub proof fn lemma_windows_inside(content: Seq<char>, old: Seq<char>)
    ensures
        forall|k: int|
            0 <= k < quote_windows(content, old).len() ==> 0 <= (#[trigger] quote_windows(
                content,
                old,
            )[k]).0 <= quote_windows(content, old)[k].1 <= content.len(),
{
    let v = split(content, '\n');
    let p = split(strip_lf(old), '\n');
    lemma_split_len(content, '\n');
    lemma_split_len(strip_lf(old), '\n');
    if v.len() >= p.len() {
        lemma_windows(v, p, (v.len() - p.len() + 1) as nat, content.len() as int);
    }
}

proof fn lemma_windows(v: Seq<Seq<char>>, p: Seq<Seq<char>>, m: nat, end: int)
    requires
        p.len() >= 1,
        m <= v.len() - p.len() + 1,
        line_start(v, v.len() as int) == end + 1,
    ensures
        forall|k: int|
            0 <= k < windows(v, p, m).len() ==> 0 <= (#[trigger] windows(v, p, m)[k]).0 <= windows(
                v,
                p,
                m,
            )[k].1 <= end,
        windows(v, p, m).len() <= m,
    decreases m,
{
    if m > 0 {
        let i = (m - 1) as int;
        let n = p.len() as int;
        lemma_windows(v, p, (m - 1) as nat, end);
        lemma_start_mono(v, i, i + n - 1);
        lemma_start_mono(v, i + n, v.len() as int);
        assert(line_start(v, i + n) == line_start(v, i + n - 1) + v[i + n - 1].len() + 1);
        let before = windows(v, p, (m - 1) as nat);
        assert forall|k: int| 0 <= k < windows(v, p, m).len() implies 0 <= (#[trigger] windows(
            v,
            p,
            m,
        )[k]).0 <= windows(v, p, m)[k].1 <= end by {
            if k < before.len() {
                assert(windows(v, p, m)[k] == before[k]);
            }
        }
    }
}

/// What a list of windows says.
pub open spec fn places(v: Seq<(usize, usize)>) -> Seq<(int, int)> {
    v.map_values(|w: (usize, usize)| (w.0 as int, w.1 as int))
}

/// Finds the windows of whole lines that are `old` up to the shape of quotes.
pub fn find_quote_normalized_windows(content: &[char], old: &[char]) -> (r: Vec<(usize, usize)>)
    ensures
        places(r@) == quote_windows(content@, old@),
{
    let lines = pieces(content, '\n');
    let wanted = pieces(drop_lf(old), '\n');
    let ghost v = rows(lines@);
    let ghost p = rows(wanted@);
    proof {
        lemma_split_len(content@, '\n');
        lemma_split_len(strip_lf(old@), '\n');
        assert(v.len() == lines@.len());
        assert(p.len() == wanted@.len());
    }
    let n: usize = wanted.len();
    let mut out: Vec<(usize, usize)> = Vec::new();
    proof {
        assert(places(out@) =~= Seq::<(int, int)>::empty());
    }
    if lines.len() < n {
        return out;
    }
    let mut norm: Vec<Vec<char>> = Vec::new();
    let mut starts: Vec<usize> = Vec::new();
    let total: usize = content.len();
    let mut at: usize = 0;
    for i in 0..lines.len()
        invariant
            v == rows(lines@),
            v.len() == lines@.len(),
            norm.len() == i,
            starts.len() == i,
            i < v.len() ==> at == line_start(v, i as int),
            line_start(v, v.len() as int) == total + 1,
            forall|k: int| 0 <= k < i ==> (#[trigger] norm@[k])@ == straightened(v[k]),
            forall|k: int| 0 <= k < i ==> #[trigger] starts@[k] == line_start(v, k),
    {
        proof {
            assert(v[i as int] == lines@[i as int]@);
            assert(line_start(v, i as int + 1) == line_start(v, i as int) + v[i as int].len() + 1);
            lemma_start_mono(v, i as int + 1, v.len() as int);
        }
        norm.push(normalize_quotes(lines[i].as_slice()));
        starts.push(at);
        if i + 1 < lines.len() {
            at = at + lines[i].len() + 1;
        }
    }
    let mut wanted_norm: Vec<Vec<char>> = Vec::new();
    for j in 0..n
        invariant
            p == rows(wanted@),
            n == wanted@.len(),
            wanted_norm.len() == j,
            forall|k: int| 0 <= k < j ==> (#[trigger] wanted_norm@[k])@ == straightened(p[k]),
    {
        proof {
            assert(p[j as int] == wanted@[j as int]@);
        }
        wanted_norm.push(normalize_quotes(wanted[j].as_slice()));
    }
    let last: usize = lines.len() - n;
    let mut i: usize = 0;
    while i <= last
        invariant
            v == rows(lines@),
            p == rows(wanted@),
            v.len() == lines@.len() == norm@.len() == starts@.len(),
            p.len() == n == wanted_norm@.len(),
            1 <= n <= lines@.len(),
            last == lines@.len() - n,
            i <= last + 1,
            line_start(v, v.len() as int) == total + 1,
            forall|k: int| 0 <= k < v.len() ==> (#[trigger] norm@[k])@ == straightened(v[k]),
            forall|k: int| 0 <= k < v.len() ==> #[trigger] starts@[k] == line_start(v, k),
            forall|k: int| 0 <= k < n ==> (#[trigger] wanted_norm@[k])@ == straightened(p[k]),
            places(out@) == windows(v, p, i as nat),
        decreases last + 1 - i,
    {
        let mut hit = true;
        let mut j: usize = 0;
        let count: usize = norm.len();
        while j < n && hit
            invariant
                v.len() == norm@.len(),
                p.len() == n == wanted_norm@.len(),
                i + n <= norm@.len(),
                norm@.len() == count,
                j <= n,
                forall|k: int| 0 <= k < v.len() ==> (#[trigger] norm@[k])@ == straightened(v[k]),
                forall|k: int| 0 <= k < n ==> (#[trigger] wanted_norm@[k])@ == straightened(p[k]),
                hit ==> forall|k: int|
                    0 <= k < j ==> straightened(#[trigger] v[i + k]) == straightened(p[k]),
                !hit ==> !lines_at(v, p, i as int),
            decreases n - j + if hit {
                1int
            } else {
                0int
            },
        {
            proof {
                assert(norm@[i + j]@ == straightened(v[i + j]));
                assert(wanted_norm@[j as int]@ == straightened(p[j as int]));
            }
            if same(norm[i + j].as_slice(), wanted_norm[j].as_slice()) {
                j = j + 1;
            } else {
                hit = false;
            }
        }
        let ghost before = places(out@);
        if hit {
            proof {
                assert(v[i + n - 1] == lines@[i + n - 1]@);
                assert(starts@[i + n - 1] == line_start(v, i + n - 1));
                assert(line_start(v, i + n) == line_start(v, i + n - 1) + v[i + n - 1].len() + 1);
                lemma_start_mono(v, i + n, v.len() as int);
                assert(lines_at(v, p, i as int));
            }
            let start: usize = starts[i];
            let end: usize = starts[i + n - 1] + lines[i + n - 1].len();
            out.push((start, end));
            proof {
                assert(places(out@) =~= before.push(window(v, i as int, n as int)));
            }
        }
        i = i + 1;
    }
    out
}

/// Whether `s` has a curly double quote.
pub open spec fn has_curly_double(s: Seq<char>) -> bool {
    s.contains('\u{201C}') || s.contains('\u{201D}')
}

/// Whether `s` has a curly single quote.
pub open spec fn has_curly_single(s: Seq<char>) -> bool {
    s.contains('\u{2018}') || s.contains('\u{2019}')
}

/// How many `c` are among the first `n` characters of `s`.
pub open spec fn count_char(s: Seq<char>, c: char) -> nat
    decreases s.len(),
{
    if s.len() == 0 {
        0
    } else {
        count_char(s.drop_last(), c) + if s.last() == c {
            1nat
        } else {
            0nat
        }
    }
}

/// `new` with its straight quotes made curly in turn, opening and closing, in
/// so far as `segment` has curly ones of that kind.
pub open spec fn in_style(new: Seq<char>, segment: Seq<char>) -> Seq<char> {
    Seq::new(
        new.len(),
        |i: int|
            if new[i] == '"' && has_curly_double(segment) {
                if count_char(new.take(i), '"') % 2 == 0 {
                    '\u{201C}'
                } else {
                    '\u{201D}'
                }
            } else if new[i] == '\'' && has_curly_single(segment) {
                if count_char(new.take(i), '\'') % 2 == 0 {
                    '\u{2018}'
                } else {
                    '\u{2019}'
                }
            } else {
                new[i]
            },
    )
}

/// Gives a text the quotes of the part that it replaces.
pub fn follow_quote_style(new: &[char], segment: &[char]) -> (r: Vec<char>)
    ensures
        r@ == in_style(new@, segment@),
{
    let double = crate::chars::has_char(segment, '\u{201C}') || crate::chars::has_char(
        segment,
        '\u{201D}',
    );
    let single = crate::chars::has_char(segment, '\u{2018}') || crate::chars::has_char(
        segment,
        '\u{2019}',
    );
    let mut out: Vec<char> = Vec::new();
    let mut double_open = true;
    let mut single_open = true;
    for i in 0..new.len()
        invariant
            double == has_curly_double(segment@),
            single == has_curly_single(segment@),
            out.len() == i,
            double_open == (count_char(new@.take(i as int), '"') % 2 == 0),
            single_open == (count_char(new@.take(i as int), '\'') % 2 == 0),
            forall|k: int| 0 <= k < i ==> out@[k] == in_style(new@, segment@)[k],
    {
        let c = new[i];
        proof {
            assert(new@.take(i as int + 1).drop_last() =~= new@.take(i as int));
            assert(new@.take(i as int + 1).last() == c);
        }
        if c == '"' {
            if double {
                out.push(
                    if double_open {
                        '\u{201C}'
                    } else {
                        '\u{201D}'
                    },
                );
            } else {
                out.push(c);
            }
            double_open = !double_open;
        } else if c == '\'' {
            if single {
                out.push(
                    if single_open {
                        '\u{2018}'
                    } else {
                        '\u{2019}'
                    },
                );
            } else {
                out.push(c);
            }
            single_open = !single_open;
        } else {
            out.push(c);
        }
    }
    proof {
        assert(out@ =~= in_style(new@, segment@));
    }
    out
}

// ---------------------------------------------------------------------------
// The edit
// ---------------------------------------------------------------------------

/// The outcome of replacing `count` occurrences of `old`, of which there must
/// be one unless all are replaced.
pub open spec fn plain_edit(
    content: Seq<char>,
    old: Seq<char>,
    new: Seq<char>,
    every: bool,
    note: Option<Seq<char>>,
) -> Result<OutcomeV, EditMatchError> {
    let count = occurrences(content, old);
    if count == 0 {
        Err(EditMatchError::NotFound)
    } else if count > 1 && !every {
        Err(EditMatchError::NotUnique { count: count as usize })
    } else {
        let (after, replaced) = with_replaced(content, old, new, every);
        Ok(OutcomeV { after, replaced, tier_note: note })
    }
}

/// The outcome of an edit: `old` as it is, else without line numbers, else by
/// whole lines up to the shape of quotes. Replacing all looks for `old` as it
/// is only.
pub open spec fn edit_of(content: Seq<char>, old: Seq<char>, new: Seq<char>, every: bool) -> Result<
    OutcomeV,
    EditMatchError,
> {
    if occurrences(content, old) > 0 || every {
        plain_edit(content, old, new, every, None)
    } else {
        let stripped = without_numbers(old);
        if stripped is Some && occurrences(content, stripped->0) > 0 {
            plain_edit(content, stripped->0, new, false, Some("容错匹配：已剥离行号前缀"@))
        } else {
            let w = quote_windows(content, old);
            if w.len() == 0 {
                Err(EditMatchError::NotFound)
            } else if w.len() > 1 {
                Err(EditMatchError::NotUnique { count: w.len() as usize })
            } else {
                let (start, end) = w[0];
                Ok(
                    OutcomeV {
                        after: content.take(start) + in_style(
                            new,
                            content.subrange(start, end),
                        ) + content.skip(end),
                        replaced: 1,
                        tier_note: Some("容错匹配：引号风格已跟随文件"@),
                    },
                )
            }
        }
    }
}

fn run_plain(
    content: &[char],
    old: &[char],
    new: &[char],
    every: bool,
    note: Option<&'static str>,
) -> (r: Result<EditOutcome, EditMatchError>)
    requires
        old@.len() == 0 ==> !every && content@.len() < usize::MAX,
    ensures
        match r {
            Ok(o) => plain_edit(content@, old@, new@, every, crate::command::opt_reason(note))
                == Ok::<OutcomeV, EditMatchError>(o@),
            Err(e) => plain_edit(content@, old@, new@, every, crate::command::opt_reason(note))
                == Err::<OutcomeV, EditMatchError>(e),
        },
{
    let count = count_of(content, old);
    if count == 0 {
        return Err(EditMatchError::NotFound);
    }
    if count > 1 && !every {
        return Err(EditMatchError::NotUnique { count });
    }
    let (after, replaced) = apply_replacement(content, old, new, every);
    Ok(EditOutcome { after: string_of(after.as_slice()), replaced, tier_note: note })
}

/// Computes an edit of a text whose lines end in LF. An empty `old` cannot be
/// replaced everywhere, and its places have to be countable.
pub fn compute_edit(content_lf: &str, old: &str, new: &str, replace_all: bool) -> (r: Result<
    EditOutcome,
    EditMatchError,
>)
    requires
        old@.len() == 0 ==> !replace_all && content_lf@.len() < usize::MAX,
    ensures
        match r {
            Ok(o) => edit_of(content_lf@, old@, new@, replace_all) == Ok::<OutcomeV, EditMatchError>(
                o@,
            ),
            Err(e) => edit_of(content_lf@, old@, new@, replace_all) == Err::<
                OutcomeV,
                EditMatchError,
            >(e),
        },
{
    let content = chars_of(content_lf);
    let o = chars_of(old);
    let n = chars_of(new);
    if replace_all || count_of(content.as_slice(), o.as_slice()) > 0 {
        return run_plain(content.as_slice(), o.as_slice(), n.as_slice(), replace_all, None);
    }
    match strip_line_number_prefixes(o.as_slice()) {
        Some(t) => {
            if count_of(content.as_slice(), t.as_slice()) > 0 {
                return run_plain(
                    content.as_slice(),
                    t.as_slice(),
                    n.as_slice(),
                    false,
                    Some("容错匹配：已剥离行号前缀"),
                );
            }
        },
        None => {},
    }
    let w = find_quote_normalized_windows(content.as_slice(), o.as_slice());
    let ghost ws = quote_windows(content_lf@, old@);
    proof {
        assert(places(w@).len() == w@.len());
        lemma_windows_inside(content_lf@, old@);
    }
    if w.len() == 0 {
        return Err(EditMatchError::NotFound);
    }
    if w.len() > 1 {
        return Err(EditMatchError::NotUnique { count: w.len() });
    }
    let start: usize = w[0].0;
    let end: usize = w[0].1;
    proof {
        assert(places(w@)[0] == (start as int, end as int));
        assert(ws[0] == (start as int, end as int));
    }
    let styled = follow_quote_style(
        n.as_slice(),
        slice_subrange(content.as_slice(), start, end),
    );
    let mut after = copied(slice_subrange(content.as_slice(), 0, start));
    push_all(&mut after, styled.as_slice());
    push_all(&mut after, slice_subrange(content.as_slice(), end, content.len()));
    proof {
        let c = content_lf@;
        assert(c.subrange(0, start as int) =~= c.take(start as int));
        assert(c.subrange(end as int, c.len() as int) =~= c.skip(end as int));
    }
    Ok(
        EditOutcome {
            after: string_of(after.as_slice()),
            replaced: 1,
            tier_note: Some("容错匹配：引号风格已跟随文件"),
        },
    )
}

// ---------------------------------------------------------------------------
// Laws
// ---------------------------------------------------------------------------

/// Replacing every occurrence of `old` by a text that is not empty is plain
/// substitution, and the count is the number of occurrences.
pub proof fn law_replace_all(content: Seq<char>, old: Seq<char>, new: Seq<char>)
    requires
        old.len() > 0,
        new.len() > 0,
    ensures
        with_replaced(content, old, new, true) == (
            replace(content, old, new),
            occurrences(content, old),
        ),
    decreases content.len(),
{
    crate::chars::lemma_find_sub_from(content, old, 0);
    match find_sub(content, old) {
        Some(k) => {
            law_replace_all(content.skip(k + old.len()), old, new);
        },
        None => {},
    }
}

/// An edit that succeeds without tolerance and replaces one place changes
/// nothing else: the text is the part before, the new text and the part behind,
/// less the line ending that a deletion takes with it.
pub proof fn law_single_edit(content: Seq<char>, old: Seq<char>, new: Seq<char>)
    requires
        occurrences(content, old) == 1,
    ensures
        edit_of(content, old, new, false) is Ok,
        exists|k: int|
            #![trigger content.take(k)]
            0 <= k && k + old.len() <= content.len() && content.subrange(k, k + old.len()) == old
                && edit_of(content, old, new, false)->Ok_0.after == content.take(k) + new
                + left_behind(content.skip(k + old.len()), old, new),
{
    crate::chars::lemma_find_sub_from(content, old, 0);
    if old.len() == 0 {
        assert(content.subrange(0, 0) =~= old);
        assert(stands_at(content, old, 0));
    }
    let k = find_sub(content, old)->0;
    assert(stands_at(content, old, k));
    assert(edit_of(content, old, new, false)->Ok_0.after == content.take(k) + new + left_behind(
        content.skip(k + old.len()),
        old,
        new,
    ));
}

/// What reading shows, with a number and a tab before every line, is found and
/// replaced like the lines themselves, where it is not in the text as it is.
pub proof fn law_numbers_tolerated(content: Seq<char>, old: Seq<char>, new: Seq<char>)
    requires
        occurrences(content, old) == 0,
        without_numbers(old) is Some,
        occurrences(content, without_numbers(old)->0) == 1,
    ensures
        edit_of(content, old, new, false) is Ok,
        edit_of(content, old, new, false)->Ok_0.after == edit_of(
            content,
            without_numbers(old)->0,
            new,
            false,
        )->Ok_0.after,
{
}

/// Whether `p` stands somewhere in `s`.
pub open spec fn holds(s: Seq<char>, p: Seq<char>) -> bool {
    exists|j: int| 0 <= j && j + p.len() <= s.len() && #[trigger] s.subrange(j, j + p.len()) == p
}

/// Whether `p` stands in `s` at two places that share no character.
pub open spec fn holds_twice(s: Seq<char>, p: Seq<char>) -> bool {
    exists|i: int, j: int|
        0 <= i && i + p.len() <= j && j + p.len() <= s.len() && #[trigger] s.subrange(
            i,
            i + p.len(),
        ) == p && #[trigger] s.subrange(j, j + p.len()) == p
}

/// A part is counted where it stands in a text, and more than once exactly
/// where it stands there at two places that share no character.
pub proof fn law_places_are_counted(s: Seq<char>, p: Seq<char>)
    requires
        p.len() > 0,
    ensures
        occurrences(s, p) > 0 <==> holds(s, p),
        occurrences(s, p) > 1 <==> holds_twice(s, p),
{
    crate::chars::lemma_find_sub_from(s, p, 0);
    match find_sub(s, p) {
        Some(k) => {
            let rest = s.skip(k + p.len());
            assert(s.subrange(k, k + p.len()) == p);
            crate::chars::lemma_find_sub_from(rest, p, 0);
            match find_sub(rest, p) {
                Some(m) => {
                    let j = k + p.len() + m;
                    assert(s.subrange(j, j + p.len()) =~= rest.subrange(m, m + p.len()));
                    assert(s.subrange(k, k + p.len()) == p && s.subrange(j, j + p.len()) == p);
                    assert(occurrences(rest, p) >= 1);
                },
                None => {
                    assert(occurrences(rest, p) == 0);
                    if holds_twice(s, p) {
                        let (i, j) = choose|i: int, j: int|
                            0 <= i && i + p.len() <= j && j + p.len() <= s.len()
                                && #[trigger] s.subrange(i, i + p.len()) == p
                                && #[trigger] s.subrange(j, j + p.len()) == p;
                        assert(stands_at(s, p, i));
                        assert(k <= i);
                        let m = j - k - p.len();
                        assert(rest.subrange(m, m + p.len()) =~= s.subrange(j, j + p.len()));
                        assert(stands_at(rest, p, m));
                    }
                },
            }
        },
        None => {
            if holds(s, p) {
                let j = choose|j: int|
                    0 <= j && j + p.len() <= s.len() && #[trigger] s.subrange(j, j + p.len()) == p;
                assert(stands_at(s, p, j));
            }
            if holds_twice(s, p) {
                let (i, j) = choose|i: int, j: int|
                    0 <= i && i + p.len() <= j && j + p.len() <= s.len() && #[trigger] s.subrange(
                        i,
                        i + p.len(),
                    ) == p && #[trigger] s.subrange(j, j + p.len()) == p;
                assert(stands_at(s, p, i));
            }
        },
    }
}

/// An edit finds its part as it is exactly where the part stands in the text,
/// and refuses it where it stands there at two places and not all are meant.
/// Where it changes one place, what stands before that place and behind it is
/// kept, character by character. The one exception is a deletion: a line feed
/// right behind a deleted part that does not itself end in one goes too.
pub proof fn law_edit_changes_only_its_place(content: Seq<char>, old: Seq<char>, new: Seq<char>)
    requires
        old.len() > 0,
        holds(content, old),
    ensures
        holds_twice(content, old) <==> edit_of(content, old, new, false) is Err,
        holds_twice(content, old) ==> edit_of(content, old, new, false)->Err_0 is NotUnique,
        !holds_twice(content, old) ==> ({
            let r = edit_of(content, old, new, false)->Ok_0;
            &&& r.replaced == 1
            &&& r.tier_note is None
            &&& exists|k: int|
                0 <= k && k + old.len() <= content.len() && #[trigger] content.subrange(
                    k,
                    k + old.len(),
                ) == old && r.after == content.take(k) + new + (if new.len() == 0 && old.last()
                    != '\n' && k + old.len() < content.len() && content[k + old.len()] == '\n' {
                    content.skip(k + old.len() + 1)
                } else {
                    content.skip(k + old.len() as int)
                })
        }),
{
    law_places_are_counted(content, old);
    crate::chars::lemma_find_sub_from(content, old, 0);
    let k = find_sub(content, old)->0;
    assert(content.subrange(k, k + old.len()) == old);
    let rest = content.skip(k + old.len() as int);
    if rest.len() > 0 {
        assert(rest[0] == content[k + old.len()]);
        assert(rest.skip(1) =~= content.skip(k + old.len() + 1));
    }
}

/// Deleting a part with no line feed right behind it leaves everything outside
/// the part as it is.
pub proof fn law_deletion_keeps_the_rest(content: Seq<char>, old: Seq<char>, k: int)
    requires
        old.len() > 0,
        !holds_twice(content, old),
        0 <= k,
        k + old.len() <= content.len(),
        content.subrange(k, k + old.len()) == old,
        forall|j: int|
            0 <= j && j + old.len() <= content.len() && #[trigger] content.subrange(
                j,
                j + old.len(),
            ) == old ==> j == k,
        k + old.len() == content.len() || content[k + old.len()] != '\n',
    ensures
        edit_of(content, old, Seq::empty(), false) is Ok,
        edit_of(content, old, Seq::empty(), false)->Ok_0.after == content.take(k) + content.skip(
            k + old.len() as int,
        ),
{
    assert(holds(content, old));
    law_edit_changes_only_its_place(content, old, Seq::empty());
    assert(content.take(k) + Seq::<char>::empty() =~= content.take(k));
}

/// Pieces with a text between neighbours.
pub open spec fn glued(pieces: Seq<Seq<char>>, between: Seq<char>) -> Seq<char>
    decreases pieces.len(),
{
    if pieces.len() == 0 {
        Seq::empty()
    } else if pieces.len() == 1 {
        pieces[0]
    } else {
        pieces[0] + between + glued(pieces.skip(1), between)
    }
}

/// Whether `pieces` are what is left of a text around every place of `old`,
/// from the left; with a deletion a line feed right behind a place is left out
/// too, unless `old` ends in one.
pub open spec fn left_around(content: Seq<char>, old: Seq<char>, deleted: bool, pieces: Seq<Seq<char>>) -> bool
    decreases pieces.len(),
{
    if pieces.len() == 0 {
        false
    } else if pieces.len() == 1 {
        content == pieces[0] && !holds(content, old)
    } else {
        let n = (pieces[0].len() + old.len()) as int;
        &&& n <= content.len()
        &&& content.take(n) == pieces[0] + old
        &&& !holds(pieces[0], old)
        &&& if deleted && old.last() != '\n' && n < content.len() && content[n] == '\n' {
            left_around(content.skip(n + 1), old, deleted, pieces.skip(1))
        } else {
            left_around(content.skip(n), old, deleted, pieces.skip(1))
        }
    }
}

/// Replacing all takes the text apart at every place of the old part, puts the
/// new text into each of these places, and says how many there were.
pub proof fn law_replace_all_changes_every_place(
    content: Seq<char>,
    old: Seq<char>,
    new: Seq<char>,
)
    requires
        old.len() > 0,
        holds(content, old),
    ensures
        edit_of(content, old, new, true) is Ok,
        edit_of(content, old, new, true)->Ok_0.tier_note is None,
        exists|pieces: Seq<Seq<char>>|
            left_around(content, old, new.len() == 0, pieces) && edit_of(
                content,
                old,
                new,
                true,
            )->Ok_0.after == #[trigger] glued(pieces, new) && edit_of(content, old, new, true)->Ok_0.replaced
                == pieces.len() - 1,
{
    law_places_are_counted(content, old);
    let pieces = lemma_taken_apart(content, old, new);
    assert(edit_of(content, old, new, true)->Ok_0.after == glued(pieces, new));
}

proof fn lemma_taken_apart(content: Seq<char>, old: Seq<char>, new: Seq<char>) -> (pieces: Seq<
    Seq<char>,
>)
    requires
        old.len() > 0,
    ensures
        left_around(content, old, new.len() == 0, pieces),
        with_replaced(content, old, new, true) == (glued(pieces, new), (pieces.len() - 1) as nat),
        pieces.len() >= 1,
    decreases content.len(),
{
    crate::chars::lemma_find_sub_from(content, old, 0);
    match find_sub(content, old) {
        None => {
            let pieces = seq![content];
            if holds(content, old) {
                let j = choose|j: int|
                    0 <= j && j + old.len() <= content.len() && #[trigger] content.subrange(
                        j,
                        j + old.len(),
                    ) == old;
                assert(stands_at(content, old, j));
            }
            pieces
        },
        Some(k) => {
            let n = k + old.len() as int;
            let rest = left_behind(content.skip(n), old, new);
            let more = lemma_taken_apart(rest, old, new);
            let pieces = seq![content.take(k)] + more;
            assert(pieces.skip(1) =~= more);
            assert(content.take(n) =~= content.take(k) + content.subrange(k, n));
            if holds(content.take(k), old) {
                let j = choose|j: int|
                    0 <= j && j + old.len() <= k && #[trigger] content.take(k).subrange(
                        j,
                        j + old.len(),
                    ) == old;
                assert(content.take(k).subrange(j, j + old.len()) =~= content.subrange(
                    j,
                    j + old.len(),
                ));
                assert(stands_at(content, old, j));
            }
            if n < content.len() {
                assert(content.skip(n)[0] == content[n]);
                assert(content.skip(n).skip(1) =~= content.skip(n + 1));
            }
            pieces
        },
    }
}

/// Lines with a number and a tab or a colon before each, as reading shows them,
/// are taken for the lines themselves.
pub proof fn law_shown_lines_lose_their_numbers(
    lines: Seq<Seq<char>>,
    numbers: Seq<Seq<char>>,
    mark: char,
)
    requires
        lines.len() > 0,
        lines.len() == numbers.len(),
        mark == '\t' || mark == ':',
        forall|i: int| 0 <= i < lines.len() ==> !(#[trigger] lines[i]).contains('\n'),
        forall|i: int| 0 <= i < numbers.len() ==> (#[trigger] numbers[i]).len() > 0,
        forall|i: int, j: int|
            0 <= i < numbers.len() && 0 <= j < numbers[i].len() ==> '0' <= (#[trigger] numbers[i][j])
                <= '9',
        glued(lines, seq!['\n']).len() > 0,
    ensures
        ({
            let shown = Seq::new(lines.len(), |i: int| numbers[i] + seq![mark] + lines[i]);
            &&& without_numbers(glued(shown, seq!['\n'])) == Some(glued(lines, seq!['\n']))
            &&& without_numbers(glued(shown, seq!['\n']).push('\n')) == Some(
                glued(lines, seq!['\n']).push('\n'),
            )
        }),
{
    let shown = Seq::new(lines.len(), |i: int| numbers[i] + seq![mark] + lines[i]);
    let lf = seq!['\n'];
    reveal_strlit("\n");
    assert("\n"@ =~= lf);
    assert forall|i: int| 0 <= i < shown.len() implies !(#[trigger] shown[i]).contains('\n') by {
        if shown[i].contains('\n') {
            let j = choose|j: int| 0 <= j < shown[i].len() && shown[i][j] == '\n';
            if j < numbers[i].len() {
                assert('0' <= numbers[i][j] <= '9');
            } else if j > numbers[i].len() {
                assert(lines[i][j - numbers[i].len() - 1] == '\n');
            }
        }
    }
    assert forall|i: int| 0 <= i < shown.len() implies unnumbered(#[trigger] shown[i]) == Some(
        lines[i],
    ) by {
        lemma_digit_len(numbers[i], seq![mark] + lines[i]);
        assert(shown[i] =~= numbers[i] + (seq![mark] + lines[i]));
        assert(shown[i].skip(numbers[i].len() as int + 1) =~= lines[i]);
    }
    lemma_all_unnumbered(shown, lines);
    lemma_glued_is_join(shown, lf);
    lemma_glued_is_join(lines, lf);
    crate::chars::lemma_split_join(shown, '\n');
    let s = glued(shown, lf);
    lemma_glued_last(shown, lf);
    assert(shown.last() == shown[shown.len() - 1]);
    if s.last() == '\n' {
        assert(shown.last().contains('\n'));
    }
    assert(strip_lf(s) == s);
    assert(s.push('\n').drop_last() =~= s);
    assert(strip_lf(s.push('\n')) == s);
}

proof fn lemma_glued_last(v: Seq<Seq<char>>, between: Seq<char>)
    requires
        v.len() > 0,
        v.last().len() > 0,
    ensures
        glued(v, between).len() > 0,
        glued(v, between).last() == v.last().last(),
    decreases v.len(),
{
    if v.len() > 1 {
        lemma_glued_last(v.skip(1), between);
        assert(v.skip(1).last() == v.last());
    }
}

proof fn lemma_glued_is_join(v: Seq<Seq<char>>, between: Seq<char>)
    ensures
        glued(v, between) == join(v, between),
    decreases v.len(),
{
    if v.len() > 1 {
        lemma_glued_is_join(v.skip(1), between);
        crate::chars::lemma_join_front(v, between);
    }
}

proof fn lemma_digit_len(digits: Seq<char>, rest: Seq<char>)
    requires
        forall|j: int| 0 <= j < digits.len() ==> '0' <= (#[trigger] digits[j]) <= '9',
        rest.len() > 0,
        rest[0] == '\t' || rest[0] == ':',
    ensures
        digit_len(digits + rest) == digits.len(),
    decreases digits.len(),
{
    let s = digits + rest;
    if digits.len() > 0 {
        assert(s.skip(1) =~= digits.skip(1) + rest);
        lemma_digit_len(digits.skip(1), rest);
        assert(s[0] == digits[0]);
    } else {
        assert(s[0] == rest[0]);
    }
}

proof fn lemma_all_unnumbered(shown: Seq<Seq<char>>, lines: Seq<Seq<char>>)
    requires
        shown.len() == lines.len(),
        forall|i: int| 0 <= i < shown.len() ==> unnumbered(#[trigger] shown[i]) == Some(lines[i]),
    ensures
        all_unnumbered(shown) == Some(lines),
    decreases shown.len(),
{
    if shown.len() == 0 {
        assert(lines =~= Seq::<Seq<char>>::empty());
    } else {
        assert forall|i: int| 0 <= i < shown.drop_last().len() implies unnumbered(
            #[trigger] shown.drop_last()[i],
        ) == Some(lines.drop_last()[i]) by {
            assert(unnumbered(shown[i]) == Some(lines[i]));
        }
        lemma_all_unnumbered(shown.drop_last(), lines.drop_last());
        assert(unnumbered(shown[shown.len() - 1]) == Some(lines[lines.len() - 1]));
        assert(lines.drop_last().push(lines.last()) =~= lines);
    }
}

/// Whether two characters are the same up to the shape of a quote.
pub open spec fn alike(a: char, b: char) -> bool {
    ||| a == b
    ||| (a == '\'' || a == '\u{2018}' || a == '\u{2019}') && (b == '\'' || b == '\u{2018}' || b
        == '\u{2019}')
    ||| (a == '"' || a == '\u{201C}' || a == '\u{201D}') && (b == '"' || b == '\u{201C}' || b
        == '\u{201D}')
}

/// Whether two texts are the same up to the shape of quotes.
pub open spec fn all_alike(a: Seq<char>, b: Seq<char>) -> bool {
    a.len() == b.len() && forall|i: int| 0 <= i < a.len() ==> alike(#[trigger] a[i], b[i])
}

/// An edit that tolerates the shape of quotes replaces whole lines that are the
/// old part up to that shape; everything before these lines and behind them is
/// kept, and what is put in is the new text up to the shape of its quotes, of
/// which only those change that are straight and of a kind that the lines have
/// in curly shape.
pub proof fn law_quotes_tolerated(content: Seq<char>, old: Seq<char>, new: Seq<char>)
    requires
        old.len() > 0,
        !holds(content, old),
        edit_of(content, old, new, false) is Ok,
        without_numbers(old) is None || !holds(content, without_numbers(old)->0),
    ensures
        ({
            let r = edit_of(content, old, new, false)->Ok_0;
            let wanted = if old.last() == '\n' {
                old.drop_last()
            } else {
                old
            };
            &&& r.replaced == 1
            &&& exists|start: int, end: int|
                0 <= start <= end <= content.len() && all_alike(
                    #[trigger] content.subrange(start, end),
                    wanted,
                ) && (start == 0 || content[start - 1] == '\n') && (end == content.len()
                    || content[end] == '\n') && r.after.len() == start + new.len() + (content.len()
                    - end) && r.after.take(start) == content.take(start) && r.after.skip(
                    start + new.len() as int,
                ) == content.skip(end) && restyled(
                    r.after.subrange(start, start + new.len()),
                    new,
                    content.subrange(start, end),
                )
        }),
{
    law_places_are_counted(content, old);
    if without_numbers(old) is Some {
        let t = without_numbers(old)->0;
        law_places_are_counted(content, t);
    }
    let w = quote_windows(content, old);
    let v = split(content, '\n');
    let p = split(strip_lf(old), '\n');
    lemma_split_len(content, '\n');
    lemma_split_len(strip_lf(old), '\n');
    lemma_windows_inside(content, old);
    let i = lemma_window_line(v, p, (v.len() - p.len() + 1) as nat, 0);
    let (start, end) = w[0];
    let n = p.len() as int;
    let lines = v.subrange(i, i + n);
    lemma_lines_join(content, i, n);
    crate::chars::law_split_reads_back(strip_lf(old), '\n');
    assert forall|j: int| 0 <= j < n implies straightened(#[trigger] lines[j]) == straightened(p[j]) by {
        assert(straightened(v[i + j]) == straightened(p[j]));
    }
    lemma_straight_join(lines, p);
    let segment = content.subrange(start, end);
    let wanted = strip_lf(old);
    assert(straightened(segment) == straightened(wanted));
    assert(straightened(segment).len() == segment.len());
    assert forall|q: int| 0 <= q < segment.len() implies alike(#[trigger] segment[q], wanted[q]) by {
        assert(straightened(segment)[q] == straight(segment[q]));
        assert(straightened(wanted)[q] == straight(wanted[q]));
    }
    let r = edit_of(content, old, new, false)->Ok_0;
    let put = in_style(new, segment);
    assert(r.after == content.take(start) + put + content.skip(end));
    assert(r.after.take(start) =~= content.take(start));
    assert(r.after.skip(start + new.len() as int) =~= content.skip(end));
    assert(r.after.subrange(start, start + new.len()) =~= put);
    lemma_in_style(new, segment);
}

/// Whether `put` is `new` with straight quotes made curly, in turn opening and
/// closing, where `segment` has curly quotes of the kind.
pub open spec fn restyled(put: Seq<char>, new: Seq<char>, segment: Seq<char>) -> bool {
    let double = segment.contains('\u{201C}') || segment.contains('\u{201D}');
    let single = segment.contains('\u{2018}') || segment.contains('\u{2019}');
    &&& put.len() == new.len()
    &&& forall|i: int|
        0 <= i < new.len() ==> {
            &&& alike(#[trigger] put[i], new[i])
            &&& new[i] != '"' && new[i] != '\'' ==> put[i] == new[i]
            &&& new[i] == '"' && !double ==> put[i] == '"'
            &&& new[i] == '\'' && !single ==> put[i] == '\''
            &&& new[i] == '"' && double ==> put[i] == '\u{201C}' || put[i] == '\u{201D}'
            &&& new[i] == '\'' && single ==> put[i] == '\u{2018}' || put[i] == '\u{2019}'
            &&& new[i] == '"' && double && !new.take(i).contains('"') ==> put[i] == '\u{201C}'
            &&& new[i] == '\'' && single && !new.take(i).contains('\'') ==> put[i] == '\u{2018}'
        }
    &&& forall|i: int, j: int|
        0 <= i < j < new.len() && #[trigger] new[i] == #[trigger] new[j] && !new.subrange(
            i + 1,
            j,
        ).contains(new[j]) && (new[i] == '"' && double || new[i] == '\'' && single) ==> put[i]
            != put[j]
}

proof fn lemma_in_style(new: Seq<char>, segment: Seq<char>)
    ensures
        restyled(in_style(new, segment), new, segment),
{
    let put = in_style(new, segment);
    let double = segment.contains('\u{201C}') || segment.contains('\u{201D}');
    let single = segment.contains('\u{2018}') || segment.contains('\u{2019}');
    assert(double == has_curly_double(segment));
    assert(single == has_curly_single(segment));
    assert forall|i: int| 0 <= i < new.len() implies {
        &&& alike(#[trigger] put[i], new[i])
        &&& new[i] != '"' && new[i] != '\'' ==> put[i] == new[i]
        &&& new[i] == '"' && !double ==> put[i] == '"'
        &&& new[i] == '\'' && !single ==> put[i] == '\''
        &&& new[i] == '"' && double ==> put[i] == '\u{201C}' || put[i] == '\u{201D}'
        &&& new[i] == '\'' && single ==> put[i] == '\u{2018}' || put[i] == '\u{2019}'
        &&& new[i] == '"' && double && !new.take(i).contains('"') ==> put[i] == '\u{201C}'
        &&& new[i] == '\'' && single && !new.take(i).contains('\'') ==> put[i] == '\u{2018}'
    } by {
        if !new.take(i).contains(new[i]) {
            lemma_count_none(new.take(i), new[i]);
        }
    }
    assert forall|i: int, j: int|
        0 <= i < j < new.len() && #[trigger] new[i] == #[trigger] new[j] && !new.subrange(
            i + 1,
            j,
        ).contains(new[j]) && (new[i] == '"' && double || new[i] == '\'' && single) implies put[i]
        != put[j] by {
        lemma_count_next(new, i, j);
    }
}

proof fn lemma_count_next(new: Seq<char>, i: int, j: int)
    requires
        0 <= i < j < new.len(),
        new[i] == new[j],
        !new.subrange(i + 1, j).contains(new[j]),
    ensures
        count_char(new.take(j), new[j]) == count_char(new.take(i), new[i]) + 1,
{
    let c = new[i];
    lemma_count_none(new.subrange(i + 1, j), c);
    lemma_count_add(new.take(i + 1), new.subrange(i + 1, j), c);
    assert(new.take(j) =~= new.take(i + 1) + new.subrange(i + 1, j));
    assert(new.take(i + 1).drop_last() =~= new.take(i));
    assert(new.take(i + 1).last() == c);
}

proof fn lemma_count_none(s: Seq<char>, c: char)
    requires
        !s.contains(c),
    ensures
        count_char(s, c) == 0,
    decreases s.len(),
{
    if s.len() > 0 {
        assert(s.contains(s[s.len() - 1]));
        assert forall|i: int| 0 <= i < s.drop_last().len() implies s.drop_last()[i] != c by {
            assert(s.contains(s[i]));
        }
        lemma_count_none(s.drop_last(), c);
    }
}

proof fn lemma_count_add(a: Seq<char>, b: Seq<char>, c: char)
    ensures
        count_char(a + b, c) == count_char(a, c) + count_char(b, c),
    decreases b.len(),
{
    if b.len() == 0 {
        assert(a + b =~= a);
    } else {
        lemma_count_add(a, b.drop_last(), c);
        assert((a + b).drop_last() =~= a + b.drop_last());
        assert((a + b).last() == b.last());
    }
}

proof fn lemma_window_line(v: Seq<Seq<char>>, p: Seq<Seq<char>>, m: nat, k: int) -> (i: int)
    requires
        0 <= k < windows(v, p, m).len(),
    ensures
        0 <= i < m,
        lines_at(v, p, i),
        windows(v, p, m)[k] == window(v, i, p.len() as int),
    decreases m,
{
    let i = (m - 1) as int;
    let before = windows(v, p, (m - 1) as nat);
    if k < before.len() {
        lemma_window_line(v, p, (m - 1) as nat, k)
    } else {
        i
    }
}

proof fn lemma_straight_join(a: Seq<Seq<char>>, b: Seq<Seq<char>>)
    requires
        a.len() == b.len(),
        forall|j: int| 0 <= j < a.len() ==> straightened(#[trigger] a[j]) == straightened(b[j]),
    ensures
        straightened(join(a, seq!['\n'])) == straightened(join(b, seq!['\n'])),
    decreases a.len(),
{
    let lf = seq!['\n'];
    if a.len() > 1 {
        assert forall|j: int| 0 <= j < a.drop_last().len() implies straightened(
            #[trigger] a.drop_last()[j],
        ) == straightened(b.drop_last()[j]) by {
            assert(straightened(a[j]) == straightened(b[j]));
        }
        lemma_straight_join(a.drop_last(), b.drop_last());
        assert(straightened(a[a.len() - 1]) == straightened(b[b.len() - 1]));
        lemma_straight_add(join(a.drop_last(), lf) + lf, a.last());
        lemma_straight_add(join(a.drop_last(), lf), lf);
        lemma_straight_add(join(b.drop_last(), lf) + lf, b.last());
        lemma_straight_add(join(b.drop_last(), lf), lf);
    } else if a.len() == 1 {
        assert(straightened(a[0]) == straightened(b[0]));
    }
}

proof fn lemma_straight_add(a: Seq<char>, b: Seq<char>)
    ensures
        straightened(a + b) == straightened(a) + straightened(b),
{
    assert(straightened(a + b) =~= straightened(a) + straightened(b));
}

/// Some lines of a text in a row, joined again, are the part of the text from
/// where the first begins to where the last ends, and line feeds stand around
/// that part.
proof fn lemma_lines_join(s: Seq<char>, i: int, n: int)
    requires
        0 <= i,
        1 <= n,
        i + n <= split(s, '\n').len(),
    ensures
        ({
            let v = split(s, '\n');
            let (start, end) = window(v, i, n);
            &&& 0 <= start <= end <= s.len()
            &&& s.subrange(start, end) == join(v.subrange(i, i + n), seq!['\n'])
            &&& start == 0 || s[start - 1] == '\n'
            &&& end == s.len() || s[end] == '\n'
        }),
    decreases n,
{
    let v = split(s, '\n');
    lemma_line_place(s, i + n - 1);
    lemma_line_place(s, i);
    if n == 1 {
        assert(v.subrange(i, i + 1).len() == 1);
        assert(v.subrange(i, i + 1)[0] == v[i]);
    } else {
        lemma_lines_join(s, i, n - 1);
        let (start, end) = window(v, i, n);
        let (_, mid) = window(v, i, n - 1);
        let last = line_start(v, i + n - 1);
        assert(last == mid + 1);
        assert(v.subrange(i, i + n).drop_last() =~= v.subrange(i, i + n - 1));
        assert(v.subrange(i, i + n).last() == v[i + n - 1]);
        lemma_line_place(s, i + n - 2);
        assert(s[mid] == '\n');
        assert(s.subrange(start, end) =~= s.subrange(start, mid) + seq!['\n'] + s.subrange(
            last,
            end,
        ));
    }
}

proof fn lemma_line_place(s: Seq<char>, i: int)
    requires
        0 <= i < split(s, '\n').len(),
    ensures
        ({
            let v = split(s, '\n');
            let a = line_start(v, i);
            let b = a + v[i].len();
            &&& 0 <= a <= b <= s.len()
            &&& s.subrange(a, b) == v[i]
            &&& if i == 0 {
                a == 0
            } else {
                a > 0 && s[a - 1] == '\n'
            }
            &&& if i == v.len() - 1 {
                b == s.len()
            } else {
                b < s.len() && s[b] == '\n'
            }
        }),
    decreases s.len(),
{
    crate::chars::lemma_find_from(s, '\n', 0);
    let v = split(s, '\n');
    match crate::chars::find(s, '\n') {
        Some(k) => {
            let tail = s.skip(k + 1);
            let rest = split(tail, '\n');
            assert(v =~= seq![s.take(k)] + rest);
            if i == 0 {
                assert(s.subrange(0, k) =~= s.take(k));
                lemma_split_len(tail, '\n');
            } else {
                lemma_line_place(tail, i - 1);
                lemma_start_shift(v, rest, i - 1);
                let a = line_start(v, i);
                let b = a + v[i].len();
                let ra = line_start(rest, i - 1);
                assert(a == k + 1 + ra);
                assert(s.subrange(a, b) =~= tail.subrange(ra, ra + v[i].len()));
                if ra > 0 {
                    assert(tail[ra - 1] == s[a - 1]);
                }
                if b < s.len() {
                    assert(tail[b - k - 1] == s[b]);
                }
            }
        },
        None => {
            assert(s.subrange(0, s.len() as int) =~= s);
        },
    }
}

} // verus!
