//! What git says of a workspace, read out of its output.

use crate::chars::{
    byte_len, chars_of, copied, fit, fitting, lines, lines_of, longer_than, number_of, opt_text,
    parse_number, pieces, push_text, rows, split, split_once, str_eq, string_of, text_from, texts, trim,
    trimmed, cut, cat,
};
use crate::diff::{file_diff, unified_file_diff};
use crate::lossy::{lossy_of, lossy_text};
use crate::paths::{relative_path, shown_path};
use vstd::prelude::*;
use vstd::slice::slice_subrange;

verus! {

/// Larger untracked files are not looked into.
pub const UNTRACKED_STAT_MAX_BYTES: usize = 1048576;

/// How many bytes of a diff are shown.
pub const DIFF_MAX_BYTES: usize = 1048576;

/// A file that differs from what git holds.
#[derive(Clone, Debug, PartialEq)]
pub struct GitFileChange {
    pub path: String,
    pub additions: u32,
    pub deletions: u32,
    pub status: String,
}

/// What a `GitFileChange` says.
#[verifier::ext_equal]
pub struct GitFileChangeV {
    pub path: Seq<char>,
    pub additions: u32,
    pub deletions: u32,
    pub status: Seq<char>,
}

impl View for GitFileChange {
    type V = GitFileChangeV;

    open spec fn view(&self) -> GitFileChangeV {
        GitFileChangeV {
            path: self.path@,
            additions: self.additions,
            deletions: self.deletions,
            status: self.status@,
        }
    }
}

/// What a list of changes says.
pub open spec fn changes_say(v: Seq<GitFileChange>) -> Seq<GitFileChangeV> {
    v.map_values(|c: GitFileChange| c@)
}

// ---------------------------------------------------------------------------
// Branches
// ---------------------------------------------------------------------------

/// The name of the branch in git's output, if there is one.
pub fn current_branch(out: &str) -> (r: Option<String>)
    ensures
        opt_text(r) == if trim(out@).len() > 0 {
            Some(trim(out@))
        } else {
            None
        },
{
    let v = chars_of(out);
    let t = trimmed(v.as_slice());
    if t.len() > 0 {
        Some(string_of(t))
    } else {
        None
    }
}

/// The lines without white space around them, but for those that are blank.
pub open spec fn names_in(v: Seq<Seq<char>>) -> Seq<Seq<char>>
    decreases v.len(),
{
    if v.len() == 0 {
        Seq::empty()
    } else if trim(v.last()).len() > 0 {
        names_in(v.drop_last()).push(trim(v.last()))
    } else {
        names_in(v.drop_last())
    }
}

/// The branches in git's output.
pub fn branch_list(out: &str) -> (r: Vec<String>)
    ensures
        texts(r@) == names_in(lines(out@)),
{
    let c = chars_of(out);
    let all = lines_of(c.as_slice());
    let ghost v = rows(all@);
    let mut names: Vec<String> = Vec::new();
    proof {
        assert(texts(names@) =~= Seq::<Seq<char>>::empty());
    }
    for i in 0..all.len()
        invariant
            v == rows(all@),
            texts(names@) == names_in(v.take(i as int)),
    {
        let ghost before = texts(names@);
        proof {
            assert(v.take(i as int + 1).drop_last() =~= v.take(i as int));
            assert(v.take(i as int + 1).last() == all@[i as int]@);
        }
        let t = trimmed(all[i].as_slice());
        if t.len() > 0 {
            names.push(string_of(t));
            proof {
                assert(texts(names@) =~= before.push(t@));
            }
        }
    }
    proof {
        assert(v.take(all@.len() as int) =~= v);
    }
    names
}

/// What is said when a branch cannot be checked out.
fn checkout_failure(stderr: &str) -> (r: String)
    ensures
        r@ == "git checkout 失败: "@ + trim(stderr@),
{
    let v = chars_of(stderr);
    let t = string_of(trimmed(v.as_slice()));
    cat("git checkout 失败: ", t.as_str())
}

/// What a run of git wrote, where it succeeded.
pub fn git_output(success: bool, stdout: &[u8]) -> (r: Option<String>)
    ensures
        opt_text(r) == if success {
            Some(lossy_text(stdout@))
        } else {
            None
        },
{
    if success {
        Some(lossy_of(stdout))
    } else {
        None
    }
}

/// The root of a repository: what git printed for it, or else the directory
/// itself.
pub fn repository_root(out: Option<&str>, cwd: &str) -> (r: String)
    ensures
        r@ == match out {
            Some(t) => trim(t@),
            None => cwd@,
        },
{
    match out {
        Some(t) => {
            let v = chars_of(t);
            string_of(trimmed(v.as_slice()))
        },
        None => text_from(cwd),
    }
}

/// Whether git printed nothing of a file's change, so that the file may be one
/// that git does not know.
pub fn says_nothing(out: &str) -> (r: bool)
    ensures
        r == (trim(out@).len() == 0),
{
    let v = chars_of(out);
    trimmed(v.as_slice()).len() == 0
}

/// What a change of the branch ends in. Where it fails, git's own words are
/// handed on.
pub fn checkout_result(success: bool, stderr: &[u8]) -> (r: Result<(), String>)
    ensures
        r is Ok <==> success,
        r matches Err(e) ==> e@ == "git checkout 失败: "@ + trim(lossy_text(stderr@)),
{
    if success {
        Ok(())
    } else {
        Err(checkout_failure(lossy_of(stderr).as_str()))
    }
}

// ---------------------------------------------------------------------------
// The status
// ---------------------------------------------------------------------------

/// A line of git's status: the two letters and the path.
pub open spec fn status_of(field: Seq<char>) -> Option<(char, char, Seq<char>)> {
    if byte_len(field) < 4 || field.len() < 2 {
        None
    } else {
        Some((field[0], field[1], field.skip(fit(field, 3).len() as int)))
    }
}

/// Whether a status is followed by the path from before.
pub open spec fn has_origin(x: char, y: char) -> bool {
    x == 'R' || y == 'R' || x == 'C' || y == 'C'
}

/// The files of a status, from field `i` on. A file that was moved or copied
/// stands under its new path; the field with the old one is passed over.
pub open spec fn statuses(v: Seq<Seq<char>>, i: int) -> Seq<(char, char, Seq<char>)>
    decreases v.len() - i + 2,
{
    if i < 0 || i >= v.len() {
        Seq::empty()
    } else {
        match status_of(v[i]) {
            None => statuses(v, i + 1),
            Some((x, y, path)) => {
                let next = if has_origin(x, y) {
                    i + 2
                } else {
                    i + 1
                };
                if path.len() == 0 {
                    statuses(v, next)
                } else {
                    seq![(x, y, path)] + statuses(v, next)
                }
            },
        }
    }
}

/// What a list of statuses says.
pub open spec fn statuses_say(v: Seq<(char, char, String)>) -> Seq<(char, char, Seq<char>)> {
    v.map_values(|s: (char, char, String)| (s.0, s.1, s.2@))
}

/// Reads git's status, whose fields end in NUL.
pub fn parse_porcelain(out: &str) -> (r: Vec<(char, char, String)>)
    ensures
        statuses_say(r@) == statuses(split(out@, '\0'), 0),
{
    let c = chars_of(out);
    let fields = pieces(c.as_slice(), '\0');
    let ghost v = rows(fields@);
    let mut entries: Vec<(char, char, String)> = Vec::new();
    let mut i: usize = 0;
    let n: usize = fields.len();
    proof {
        assert(statuses_say(entries@) + statuses(v, 0) =~= statuses(v, 0));
    }
    while i < n
        invariant
            v == rows(fields@),
            n == fields@.len(),
            statuses_say(entries@) + statuses(v, i as int) == statuses(v, 0),
        decreases n - i,
    {
        let f = fields[i].as_slice();
        proof {
            assert(v[i as int] == f@);
        }
        if !longer_than(f, 3) || f.len() < 2 {
            i = i + 1;
            continue;
        }
        let x = f[0];
        let y = f[1];
        let k = fitting(f, 3).len();
        proof {
            lemma_fit_bound(f@, 3);
            assert(f@.skip(k as int) =~= f@.subrange(k as int, f.len() as int));
        }
        let path = slice_subrange(f, k, f.len());
        let ghost here = i as int;
        let step: usize = if x == 'R' || y == 'R' || x == 'C' || y == 'C' {
            if n - i > 2 {
                i + 2
            } else {
                n
            }
        } else {
            i + 1
        };
        proof {
            let next = if has_origin(x, y) {
                here + 2
            } else {
                here + 1
            };
            assert(statuses(v, next) == statuses(v, step as int));
        }
        if path.len() > 0 {
            let ghost before = statuses_say(entries@);
            entries.push((x, y, string_of(path)));
            proof {
                assert(statuses_say(entries@) =~= before.push((x, y, path@)));
                assert(before + statuses(v, here) =~= statuses_say(entries@) + statuses(
                    v,
                    step as int,
                ));
            }
        }
        i = step;
    }
    proof {
        assert(statuses_say(entries@) + statuses(v, i as int) =~= statuses_say(entries@));
    }
    entries
}

proof fn lemma_fit_bound(s: Seq<char>, n: nat)
    ensures
        fit(s, n).len() <= s.len(),
    decreases s.len(),
{
    if s.len() > 0 && byte_len(s) > n {
        lemma_fit_bound(s.drop_last(), n);
    }
}

// ---------------------------------------------------------------------------
// The counts
// ---------------------------------------------------------------------------

/// A count of lines; what is no number counts as none.
pub open spec fn line_count(t: Seq<char>) -> u32 {
    match parse_number(t, u32::MAX as nat) {
        Some(n) => n as u32,
        None => 0,
    }
}

/// The three parts of a field of counts.
pub open spec fn count_parts(field: Seq<char>) -> Option<(Seq<char>, Seq<char>, Seq<char>)> {
    match split_once(field, '\t') {
        None => None,
        Some((a, rest)) => match split_once(rest, '\t') {
            None => None,
            Some((d, path)) => Some((a, d, path)),
        },
    }
}

/// A field, or nothing where there is none.
pub open spec fn field_at(v: Seq<Seq<char>>, i: int) -> Seq<char> {
    if 0 <= i < v.len() {
        v[i]
    } else {
        Seq::empty()
    }
}

/// The counts of files, from field `i` on, after those in `m`. A file that was
/// moved stands under its new path.
pub open spec fn counts(v: Seq<Seq<char>>, i: int, m: Map<Seq<char>, (u32, u32)>) -> Map<
    Seq<char>,
    (u32, u32),
>
    decreases v.len() - i + 3,
{
    if i < 0 || i >= v.len() {
        m
    } else {
        match count_parts(v[i]) {
            None => counts(v, i + 1, m),
            Some((a, d, path)) => {
                let moved = path.len() == 0;
                let name = if moved {
                    field_at(v, i + 2)
                } else {
                    path
                };
                let next = if moved {
                    i + 3
                } else {
                    i + 1
                };
                if name.len() == 0 {
                    counts(v, next, m)
                } else {
                    counts(v, next, m.insert(name, (line_count(a), line_count(d))))
                }
            },
        }
    }
}

/// The counts of added and deleted lines, by path.
#[derive(Debug)]
pub struct Numstat {
    /// The counts in the order in which they came; the last of a path counts.
    pub entries: Vec<(String, (u32, u32))>,
}

/// The counts of a list, the last of a path counting.
pub open spec fn counts_of(v: Seq<(String, (u32, u32))>) -> Map<Seq<char>, (u32, u32)>
    decreases v.len(),
{
    if v.len() == 0 {
        Map::empty()
    } else {
        counts_of(v.drop_last()).insert(v.last().0@, v.last().1)
    }
}

impl View for Numstat {
    type V = Map<Seq<char>, (u32, u32)>;

    open spec fn view(&self) -> Map<Seq<char>, (u32, u32)> {
        counts_of(self.entries@)
    }
}

impl Numstat {
    /// The counts of a path.
    pub fn get(&self, path: &str) -> (r: Option<&(u32, u32)>)
        ensures
            match r {
                Some(c) => self@.contains_key(path@) && self@[path@] == *c,
                None => !self@.contains_key(path@),
            },
    {
        let mut i: usize = self.entries.len();
        let ghost all = self.entries@;
        proof {
            assert(all.take(i as int) =~= all);
        }
        while i > 0
            invariant
                all == self.entries@,
                i <= all.len(),
                counts_of(all).contains_key(path@) == counts_of(all.take(i as int)).contains_key(
                    path@,
                ),
                counts_of(all).contains_key(path@) ==> counts_of(all)[path@] == counts_of(
                    all.take(i as int),
                )[path@],
            decreases i,
        {
            proof {
                assert(all.take(i as int).drop_last() =~= all.take(i as int - 1));
                assert(all.take(i as int).last() == all[i as int - 1]);
            }
            if str_eq(self.entries[i - 1].0.as_str(), path) {
                return Some(&self.entries[i - 1].1);
            }
            i = i - 1;
        }
        None
    }
}

/// Reads git's counts of lines, whose fields end in NUL. Of a binary file none
/// are known.
pub fn parse_numstat(out: &str) -> (r: Numstat)
    ensures
        r@ == counts(split(out@, '\0'), 0, Map::empty()),
{
    let c = chars_of(out);
    let fields = pieces(c.as_slice(), '\0');
    let ghost v = rows(fields@);
    let mut entries: Vec<(String, (u32, u32))> = Vec::new();
    let mut i: usize = 0;
    let n: usize = fields.len();
    while i < n
        invariant
            v == rows(fields@),
            n == fields@.len(),
            counts(v, i as int, counts_of(entries@)) == counts(v, 0, Map::empty()),
        decreases n - i,
    {
        let f = fields[i].as_slice();
        proof {
            assert(v[i as int] == f@);
        }
        let parts = match cut(f, '\t') {
            None => None,
            Some((a, rest)) => match cut(rest, '\t') {
                None => None,
                Some((d, path)) => Some((a, d, path)),
            },
        };
        match parts {
            None => {
                i = i + 1;
            },
            Some((a, d, path)) => {
                let additions: u32 = match number_of(a, u32::MAX as u64) {
                    Some(k) => k as u32,
                    None => 0,
                };
                let deletions: u32 = match number_of(d, u32::MAX as u64) {
                    Some(k) => k as u32,
                    None => 0,
                };
                let moved = path.len() == 0;
                let ghost here = i as int;
                let name: Vec<char> = if moved {
                    if n - i > 2 {
                        copied(fields[i + 2].as_slice())
                    } else {
                        Vec::new()
                    }
                } else {
                    copied(path)
                };
                proof {
                    assert(name@ =~= if moved {
                        field_at(v, here + 2)
                    } else {
                        path@
                    });
                }
                let next: usize = if moved {
                    if n - i > 3 {
                        i + 3
                    } else {
                        n
                    }
                } else {
                    i + 1
                };
                let ghost before = entries@;
                if name.len() > 0 {
                    entries.push((string_of(name.as_slice()), (additions, deletions)));
                    proof {
                        assert(entries@.drop_last() =~= before);
                    }
                }
                proof {
                    let spec_next = if moved {
                        here + 3
                    } else {
                        here + 1
                    };
                    assert(counts(v, spec_next, counts_of(entries@)) == counts(
                        v,
                        next as int,
                        counts_of(entries@),
                    ));
                }
                i = next;
            },
        }
    }
    Numstat { entries }
}

/// How many of the bytes are line feeds.
pub open spec fn feeds(b: Seq<u8>) -> nat
    decreases b.len(),
{
    if b.len() == 0 {
        0
    } else {
        feeds(b.drop_last()) + if b.last() == 10 {
            1nat
        } else {
            0nat
        }
    }
}

/// How many lines an untracked file has: none where it is large or binary; a
/// last line without an ending counts.
pub open spec fn untracked_lines(b: Seq<u8>) -> u32 {
    if b.len() > UNTRACKED_STAT_MAX_BYTES || b.contains(0) {
        0
    } else {
        (feeds(b) + if b.len() > 0 && b.last() != 10 {
            1nat
        } else {
            0nat
        }) as u32
    }
}

fn has_zero(b: &[u8]) -> (r: bool)
    ensures
        r == b@.contains(0),
{
    for i in 0..b.len()
        invariant
            forall|k: int| 0 <= k < i ==> b@[k] != 0,
    {
        if b[i] == 0 {
            return true;
        }
    }
    false
}

/// Counts the lines of an untracked file.
pub fn count_file_lines(bytes: &[u8]) -> (r: u32)
    ensures
        r == untracked_lines(bytes@),
{
    if bytes.len() > UNTRACKED_STAT_MAX_BYTES || has_zero(bytes) {
        return 0;
    }
    let mut n: u32 = 0;
    for i in 0..bytes.len()
        invariant
            n == feeds(bytes@.take(i as int)),
            n <= i,
            bytes@.len() <= UNTRACKED_STAT_MAX_BYTES,
    {
        proof {
            assert(bytes@.take(i as int + 1).drop_last() =~= bytes@.take(i as int));
            assert(bytes@.take(i as int + 1).last() == bytes@[i as int]);
        }
        if bytes[i] == 10 {
            n = n + 1;
        }
    }
    proof {
        assert(bytes@.take(bytes@.len() as int) =~= bytes@);
    }
    if bytes.len() > 0 && bytes[bytes.len() - 1] != 10 {
        n = n + 1;
    }
    n
}

// ---------------------------------------------------------------------------
// The changes
// ---------------------------------------------------------------------------

/// The counts of a path, none where git gave none.
pub open spec fn counts_at(m: Map<Seq<char>, (u32, u32)>, path: Seq<char>) -> (u32, u32) {
    if m.contains_key(path) {
        m[path]
    } else {
        (0, 0)
    }
}

/// Whether a status is that of a conflict.
pub open spec fn is_conflict(x: char, y: char) -> bool {
    x == 'U' || y == 'U' || (x == 'A' && y == 'A') || (x == 'D' && y == 'D')
}

/// A change of a file.
pub open spec fn change(path: Seq<char>, c: (u32, u32), status: Seq<char>) -> GitFileChangeV {
    GitFileChangeV { path, additions: c.0, deletions: c.1, status }
}

/// What a file adds to the changes that are not staged.
pub open spec fn unstaged_of(
    s: (char, char, Seq<char>),
    m: Map<Seq<char>, (u32, u32)>,
    lines_in: u32,
) -> Option<GitFileChangeV> {
    let (x, y, path) = s;
    if x == '?' {
        Some(change(path, (lines_in, 0), "?"@))
    } else if is_conflict(x, y) {
        Some(change(path, (0, 0), "C"@))
    } else if y != ' ' {
        Some(change(path, counts_at(m, path), seq![y]))
    } else {
        None
    }
}

/// What a file adds to the changes that are staged.
pub open spec fn staged_of(s: (char, char, Seq<char>), m: Map<Seq<char>, (u32, u32)>) -> Option<
    GitFileChangeV,
> {
    let (x, y, path) = s;
    if x == '?' || is_conflict(x, y) || x == ' ' {
        None
    } else {
        Some(change(path, counts_at(m, path), seq![x]))
    }
}

/// The changes that are not staged, in git's order. `lines_in[i]` is the count
/// of lines of file `i`, for those that are untracked.
pub open spec fn all_unstaged(
    v: Seq<(char, char, Seq<char>)>,
    m: Map<Seq<char>, (u32, u32)>,
    lines_in: Seq<u32>,
) -> Seq<GitFileChangeV>
    decreases v.len(),
{
    if v.len() == 0 {
        Seq::empty()
    } else {
        let i = v.len() - 1;
        let before = all_unstaged(v.drop_last(), m, lines_in);
        match unstaged_of(
            v.last(),
            m,
            if i < lines_in.len() {
                lines_in[i]
            } else {
                0
            },
        ) {
            Some(c) => before.push(c),
            None => before,
        }
    }
}

/// The changes that are staged, in git's order.
pub open spec fn all_staged(v: Seq<(char, char, Seq<char>)>, m: Map<Seq<char>, (u32, u32)>) -> Seq<
    GitFileChangeV,
>
    decreases v.len(),
{
    if v.len() == 0 {
        Seq::empty()
    } else {
        let before = all_staged(v.drop_last(), m);
        match staged_of(v.last(), m) {
            Some(c) => before.push(c),
            None => before,
        }
    }
}

fn letter(c: char) -> (r: String)
    ensures
        r@ == seq![c],
{
    let mut v: Vec<char> = Vec::new();
    v.push(c);
    proof {
        assert(v@ =~= seq![c]);
    }
    string_of(v.as_slice())
}

fn counts_for(m: &Numstat, path: &str) -> (r: (u32, u32))
    ensures
        r == counts_at(m@, path@),
{
    match m.get(path) {
        Some(c) => *c,
        None => (0, 0),
    }
}

fn add_change(out: &mut Vec<GitFileChange>, c: GitFileChange)
    ensures
        changes_say(final(out)@) == changes_say(old(out)@).push(c@),
{
    let ghost before = changes_say(out@);
    let ghost v = c@;
    out.push(c);
    proof {
        assert(changes_say(out@) =~= before.push(v));
    }
}

/// Puts git's status and counts together: the changes that are not staged, and
/// those that are. `lines_in[i]` is the count of lines of file `i` of the
/// status, for those that are untracked.
pub fn git_status(
    files: &[(char, char, String)],
    unstaged_counts: &Numstat,
    staged_counts: &Numstat,
    lines_in: &[u32],
) -> (r: (Vec<GitFileChange>, Vec<GitFileChange>))
    ensures
        changes_say(r.0@) == all_unstaged(
            statuses_say(files@),
            unstaged_counts@,
            lines_in@,
        ),
        changes_say(r.1@) == all_staged(statuses_say(files@), staged_counts@),
{
    let ghost all = statuses_say(files@);
    let mut unstaged: Vec<GitFileChange> = Vec::new();
    let mut staged: Vec<GitFileChange> = Vec::new();
    proof {
        assert(changes_say(unstaged@) =~= Seq::<GitFileChangeV>::empty());
        assert(changes_say(staged@) =~= Seq::<GitFileChangeV>::empty());
    }
    for i in 0..files.len()
        invariant
            all == statuses_say(files@),
            changes_say(unstaged@) == all_unstaged(
                all.take(i as int),
                unstaged_counts@,
                lines_in@,
            ),
            changes_say(staged@) == all_staged(all.take(i as int), staged_counts@),
    {
        let x = files[i].0;
        let y = files[i].1;
        let path = &files[i].2;
        proof {
            assert(all.take(i as int + 1).drop_last() =~= all.take(i as int));
            assert(all.take(i as int + 1).last() == (x, y, path@));
        }
        if x == '?' {
            let n: u32 = if i < lines_in.len() {
                lines_in[i]
            } else {
                0
            };
            add_change(
                &mut unstaged,
                GitFileChange {
                    path: path.clone(),
                    additions: n,
                    deletions: 0,
                    status: text_from("?"),
                },
            );
        } else if x == 'U' || y == 'U' || (x == 'A' && y == 'A') || (x == 'D' && y == 'D') {
            add_change(
                &mut unstaged,
                GitFileChange {
                    path: path.clone(),
                    additions: 0,
                    deletions: 0,
                    status: text_from("C"),
                },
            );
        } else {
            if y != ' ' {
                let c = counts_for(unstaged_counts, path.as_str());
                add_change(
                    &mut unstaged,
                    GitFileChange {
                        path: path.clone(),
                        additions: c.0,
                        deletions: c.1,
                        status: letter(y),
                    },
                );
            }
            if x != ' ' {
                let c = counts_for(staged_counts, path.as_str());
                add_change(
                    &mut staged,
                    GitFileChange {
                        path: path.clone(),
                        additions: c.0,
                        deletions: c.1,
                        status: letter(x),
                    },
                );
            }
        }
    }
    proof {
        assert(all.take(files@.len() as int) =~= all);
    }
    (unstaged, staged)
}

// ---------------------------------------------------------------------------
// Diffs
// ---------------------------------------------------------------------------

/// A diff as it is shown: cut at the end of a character where it is too long.
pub open spec fn short_diff(diff: Seq<char>) -> Seq<char> {
    if byte_len(diff) <= DIFF_MAX_BYTES {
        diff
    } else {
        fit(diff, DIFF_MAX_BYTES as nat) + "\n… diff 超过 1MB，已截断 …"@
    }
}

/// Cuts a diff that is too long.
pub fn truncate_diff(diff: &str) -> (r: String)
    ensures
        r@ == short_diff(diff@),
{
    let v = chars_of(diff);
    if longer_than(v.as_slice(), DIFF_MAX_BYTES) {
        let mut out = copied(fitting(v.as_slice(), DIFF_MAX_BYTES));
        push_text(&mut out, "\n… diff 超过 1MB，已截断 …");
        string_of(out.as_slice())
    } else {
        text_from(diff)
    }
}

/// The diff of a file that git does not track: everything in it is new. `full`
/// is its path, `root` the repository and `real_root` its real path.
pub open spec fn new_file_diff(
    full: Seq<char>,
    root: Seq<char>,
    real_root: Seq<char>,
    bytes: Seq<u8>,
) -> Seq<char> {
    if bytes.len() > UNTRACKED_STAT_MAX_BYTES {
        "（文件超过 1MB，无文本 diff）"@
    } else if bytes.contains(0) {
        "（二进制文件，无文本 diff）"@
    } else {
        file_diff(shown_path(full, real_root, root), Seq::empty(), lossy_text(bytes))
    }
}

/// Writes the diff of a file that git does not track.
pub fn untracked_diff(full: &str, root: &str, real_root: &str, bytes: &[u8]) -> (r: String)
    ensures
        r@ == new_file_diff(full@, root@, real_root@, bytes@),
{
    if bytes.len() > UNTRACKED_STAT_MAX_BYTES {
        return text_from("（文件超过 1MB，无文本 diff）");
    }
    if has_zero(bytes) {
        return text_from("（二进制文件，无文本 diff）");
    }
    let content = lossy_of(bytes);
    let path = relative_path(full, real_root, root);
    let nothing = String::new();
    proof {
        assert(nothing@ =~= Seq::<char>::empty());
    }
    unified_file_diff(path.as_str(), nothing.as_str(), content.as_str())
}

/// The diff of a file: git's own, cut where it is too long. A file that is not
/// staged and of which git says nothing may be untracked; its diff is
/// `untracked`.
pub open spec fn shown_diff(out: Option<Seq<char>>, staged: bool, untracked: Option<Seq<char>>) -> Seq<
    char,
> {
    let said = match out {
        Some(t) => t,
        None => Seq::empty(),
    };
    if staged || trim(said).len() > 0 {
        short_diff(said)
    } else {
        match untracked {
            Some(t) => t,
            None => Seq::empty(),
        }
    }
}

/// Chooses the diff of a file.
pub fn git_diff(out: Option<&str>, staged: bool, untracked: Option<&str>) -> (r: String)
    ensures
        r@ == shown_diff(
            crate::agent::opt_str(out),
            staged,
            crate::agent::opt_str(untracked),
        ),
{
    let said: String = match out {
        Some(t) => text_from(t),
        None => String::new(),
    };
    proof {
        if out is None {
            assert(said@ =~= Seq::<char>::empty());
        }
    }
    let v = chars_of(said.as_str());
    if staged || trimmed(v.as_slice()).len() > 0 {
        return truncate_diff(said.as_str());
    }
    match untracked {
        Some(t) => text_from(t),
        None => String::new(),
    }
}

/// A file that git reports once is listed once on each side at most, and every
/// file that differs is listed somewhere.
pub proof fn law_every_change_is_listed(
    s: (char, char, Seq<char>),
    m: Map<Seq<char>, (u32, u32)>,
    w: Map<Seq<char>, (u32, u32)>,
    n: u32,
)
    requires
        s.0 != ' ' || s.1 != ' ',
    ensures
        unstaged_of(s, m, n) is Some || staged_of(s, w) is Some,
        unstaged_of(s, m, n) is Some ==> unstaged_of(s, m, n)->0.path == s.2,
        staged_of(s, w) is Some ==> staged_of(s, w)->0.path == s.2,
{
}

/// The changes that are staged are those files whose first letter says so, all
/// of them and in git's order, each with that letter and its own counts.
pub proof fn law_staged_files_are_all_listed(
    v: Seq<(char, char, Seq<char>)>,
    m: Map<Seq<char>, (u32, u32)>,
)
    ensures
        all_staged(v, m) == v.filter(
            |s: (char, char, Seq<char>)|
                s.0 != '?' && s.0 != ' ' && !(s.0 == 'U' || s.1 == 'U' || (s.0 == 'A' && s.1 == 'A')
                    || (s.0 == 'D' && s.1 == 'D')),
        ).map_values(
            |s: (char, char, Seq<char>)|
                GitFileChangeV {
                    path: s.2,
                    additions: if m.contains_key(s.2) {
                        m[s.2].0
                    } else {
                        0
                    },
                    deletions: if m.contains_key(s.2) {
                        m[s.2].1
                    } else {
                        0
                    },
                    status: seq![s.0],
                },
        ),
    decreases v.len(),
{
    let is_staged = |s: (char, char, Seq<char>)|
        s.0 != '?' && s.0 != ' ' && !(s.0 == 'U' || s.1 == 'U' || (s.0 == 'A' && s.1 == 'A') || (s.0
            == 'D' && s.1 == 'D'));
    let listed = |s: (char, char, Seq<char>)|
        GitFileChangeV {
            path: s.2,
            additions: if m.contains_key(s.2) {
                m[s.2].0
            } else {
                0
            },
            deletions: if m.contains_key(s.2) {
                m[s.2].1
            } else {
                0
            },
            status: seq![s.0],
        };
    reveal(Seq::filter);
    if v.len() == 0 {
        assert(v.filter(is_staged).map_values(listed) =~= Seq::<GitFileChangeV>::empty());
    } else {
        let front = v.drop_last();
        law_staged_files_are_all_listed(front, m);
        if is_staged(v.last()) {
            assert(v.filter(is_staged).map_values(listed) =~= front.filter(is_staged).map_values(
                listed,
            ).push(listed(v.last())));
        }
    }
}

/// Of the changes that are not staged, a file that git does not track stands
/// with all its lines as new, a conflict stands without counts, and any other
/// stands with its second letter and its own counts; each behind those before.
pub proof fn law_unstaged_file_is_listed(
    v: Seq<(char, char, Seq<char>)>,
    m: Map<Seq<char>, (u32, u32)>,
    lines_in: Seq<u32>,
    s: (char, char, Seq<char>),
)
    requires
        lines_in.len() == v.len() + 1,
    ensures
        ({
            let before = all_unstaged(v, m, lines_in);
            let now = all_unstaged(v.push(s), m, lines_in);
            let clash = s.0 == 'U' || s.1 == 'U' || (s.0 == 'A' && s.1 == 'A') || (s.0 == 'D' && s.1
                == 'D');
            &&& s.0 == '?' ==> now == before.push(
                GitFileChangeV {
                    path: s.2,
                    additions: lines_in.last(),
                    deletions: 0,
                    status: "?"@,
                },
            )
            &&& s.0 != '?' && clash ==> now == before.push(
                GitFileChangeV { path: s.2, additions: 0, deletions: 0, status: "C"@ },
            )
            &&& s.0 != '?' && !clash && s.1 != ' ' ==> now.len() == before.len() + 1
                && now.drop_last() == before && now.last().path == s.2 && now.last().status
                == seq![s.1] && (m.contains_key(s.2) ==> now.last().additions == m[s.2].0
                && now.last().deletions == m[s.2].1)
            &&& s.0 != '?' && !clash && s.1 == ' ' ==> now == before
        }),
{
    assert(v.push(s).drop_last() =~= v);
    let before = all_unstaged(v, m, lines_in);
    let now = all_unstaged(v.push(s), m, lines_in);
    if now.len() > before.len() {
        assert(now.drop_last() =~= before);
    }
}

/// A field of git's status is read as its two letters and the path behind them,
/// and the field behind a moved or copied file is passed over.
pub proof fn law_status_is_read(v: Seq<Seq<char>>, i: int, x: char, y: char, path: Seq<char>)
    requires
        0 <= i < v.len(),
        x as u32 <= 127,
        y as u32 <= 127,
        path.len() > 0,
        v[i] == seq![x, y, ' '] + path,
    ensures
        x == 'R' || x == 'C' || y == 'R' || y == 'C' ==> statuses(v, i) == seq![(x, y, path)]
            + statuses(v, i + 2),
        !(x == 'R' || x == 'C' || y == 'R' || y == 'C') ==> statuses(v, i) == seq![(x, y, path)]
            + statuses(v, i + 1),
{
    let f = v[i];
    reveal_with_fuel(byte_len, 5);
    assert(f.take(3) =~= seq![x, y, ' ']);
    assert(f.take(4) =~= seq![x, y, ' ', path[0]]);
    assert(f.take(3).drop_last() =~= seq![x, y]);
    assert(seq![x, y].drop_last() =~= seq![x]);
    assert(seq![x].drop_last() =~= Seq::<char>::empty());
    assert(f.take(4).drop_last() =~= f.take(3));
    assert(byte_len(f.take(3)) == 3);
    assert(byte_len(f.take(4)) >= 4);
    crate::chars::lemma_fit(f, 3, 3);
    crate::chars::lemma_byte_len_take(f, 4, f.len() as int);
    assert(f.take(f.len() as int) =~= f);
    assert(f.skip(3) =~= path);
}

/// The counts of a file are read from the three parts of its field: what was
/// added, what was deleted, and the path.
pub proof fn law_counts_are_read(
    v: Seq<Seq<char>>,
    i: int,
    m: Map<Seq<char>, (u32, u32)>,
    a: Seq<char>,
    d: Seq<char>,
    path: Seq<char>,
)
    requires
        0 <= i < v.len(),
        !a.contains('\t'),
        !d.contains('\t'),
        path.len() > 0,
        v[i] == a + seq!['\t'] + d + seq!['\t'] + path,
    ensures
        counts(v, i, m) == counts(
            v,
            i + 1,
            m.insert(
                path,
                (
                    match parse_number(a, u32::MAX as nat) {
                        Some(n) => n as u32,
                        None => 0,
                    },
                    match parse_number(d, u32::MAX as nat) {
                        Some(n) => n as u32,
                        None => 0,
                    },
                ),
            ),
        ),
{
    let f = v[i];
    lemma_first_part(a, d + seq!['\t'] + path);
    assert(f =~= a + seq!['\t'] + (d + seq!['\t'] + path));
    lemma_first_part(d, path);
}

proof fn lemma_first_part(a: Seq<char>, b: Seq<char>)
    requires
        !a.contains('\t'),
    ensures
        split_once(a + seq!['\t'] + b, '\t') == Some((a, b)),
{
    let s = a + seq!['\t'] + b;
    let n = a.len() as int;
    crate::chars::lemma_find_from(s, '\t', 0);
    assert(s[n] == '\t');
    assert forall|j: int| 0 <= j < n implies s[j] != '\t' by {
        assert(s[j] == a[j]);
        assert(a.contains(a[j]));
    }
    assert(s.take(n) =~= a);
    assert(s.skip(n + 1) =~= b);
}

/// The names in git's output are all its lines that are not blank, trimmed and
/// in their order.
pub proof fn law_names_are_all_read(v: Seq<Seq<char>>)
    ensures
        names_in(v) == v.map_values(|t: Seq<char>| trim(t)).filter(|t: Seq<char>| t.len() > 0),
    decreases v.len(),
{
    let cut = |t: Seq<char>| trim(t);
    reveal(Seq::filter);
    if v.len() == 0 {
        assert(v.map_values(cut) =~= Seq::<Seq<char>>::empty());
    } else {
        law_names_are_all_read(v.drop_last());
        assert(v.map_values(cut).drop_last() =~= v.drop_last().map_values(cut));
        assert(v.map_values(cut).last() == trim(v.last()));
    }
}

/// A diff that is not too long is shown as git wrote it; where git says nothing
/// of a file that is not staged, the file's own diff is shown.
pub proof fn law_diff_is_shown(t: Seq<char>, staged: bool, untracked: Option<Seq<char>>)
    ensures
        byte_len(t) <= 1048576 && (staged || trim(t).len() > 0) ==> shown_diff(
            Some(t),
            staged,
            untracked,
        ) == t,
        !staged && untracked is Some && trim(t).len() == 0 ==> shown_diff(Some(t), staged, untracked)
            == untracked->0,
{
}

} // verus!
