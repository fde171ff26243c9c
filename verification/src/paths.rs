//! Paths as text, with `/` between their parts.
//!
//! The path of a workspace is brought into one form at the door: `~` is
//! expanded, the path is made absolute, and `.`, `..` and needless separators
//! go. Letters keep their case and links are not followed, so that two
//! spellings meet only where the text says that they mean the same.

use crate::chars::{
    begins, chars_of, copied, join, joined, opt_text, text_from, lemma_split_free,
    lemma_split_front, lemma_split_join, pieces, push_all, reads, rows, same, split, starts_with,
    string_of,
};
use vstd::prelude::*;
use vstd::slice::slice_subrange;

verus! {

/// Whether a path begins at the root.
pub open spec fn is_absolute(p: Seq<char>) -> bool {
    p.len() > 0 && p[0] == '/'
}

/// `b` under `a`; an absolute `b` stands for itself.
pub open spec fn under(a: Seq<char>, b: Seq<char>) -> Seq<char> {
    if is_absolute(b) {
        b
    } else if a.len() == 0 || a.last() == '/' {
        a + b
    } else {
        a.push('/') + b
    }
}

/// Whether a part of a path says nothing.
pub open spec fn is_idle(part: Seq<char>) -> bool {
    part.len() == 0 || part == "."@
}

/// The parts of a path that say something.
pub open spec fn parts_of(v: Seq<Seq<char>>) -> Seq<Seq<char>>
    decreases v.len(),
{
    if v.len() == 0 {
        Seq::empty()
    } else if is_idle(v.last()) {
        parts_of(v.drop_last())
    } else {
        parts_of(v.drop_last()).push(v.last())
    }
}

/// The parts of a path that say something.
pub open spec fn parts(p: Seq<char>) -> Seq<Seq<char>> {
    parts_of(split(p, '/'))
}

/// The parts that are left when every `..` has taken the part before it.
pub open spec fn settled(v: Seq<Seq<char>>) -> Seq<Seq<char>>
    decreases v.len(),
{
    if v.len() == 0 {
        Seq::empty()
    } else {
        let before = settled(v.drop_last());
        if v.last() == ".."@ {
            if before.len() > 0 {
                before.drop_last()
            } else {
                before
            }
        } else {
            before.push(v.last())
        }
    }
}

/// A path without `.`, `..` and needless separators.
pub open spec fn lexical(p: Seq<char>) -> Seq<char> {
    let body = join(settled(parts(p)), "/"@);
    if is_absolute(p) {
        "/"@ + body
    } else {
        body
    }
}

/// A path with `~` at its start expanded, where there is a home.
pub open spec fn with_home(p: Seq<char>, home: Option<Seq<char>>) -> Seq<char> {
    match home {
        Some(h) => if p == "~"@ {
            h
        } else if starts_with(p, "~/"@) {
            under(h, p.skip(2))
        } else {
            p
        },
        None => p,
    }
}

/// The form in which the path of a workspace is kept.
pub open spec fn workspace_path(
    p: Seq<char>,
    home: Option<Seq<char>>,
    cwd: Option<Seq<char>>,
) -> Seq<char> {
    let e = with_home(p, home);
    lexical(
        if is_absolute(e) {
            e
        } else {
            match cwd {
                Some(c) => under(c, e),
                None => e,
            }
        },
    )
}

fn absolute(p: &[char]) -> (r: bool)
    ensures
        r == is_absolute(p@),
{
    p.len() > 0 && p[0] == '/'
}

fn put_under(a: &[char], b: &[char]) -> (r: Vec<char>)
    ensures
        r@ == under(a@, b@),
{
    if absolute(b) {
        return copied(b);
    }
    let mut out = copied(a);
    if !(a.len() == 0 || a[a.len() - 1] == '/') {
        out.push('/');
    }
    push_all(&mut out, b);
    out
}

/// `b` under `a`; an absolute `b` stands for itself.
pub fn join_path(a: &str, b: &str) -> (r: String)
    ensures
        r@ == under(a@, b@),
{
    let x = chars_of(a);
    let y = chars_of(b);
    string_of(put_under(x.as_slice(), y.as_slice()).as_slice())
}

fn idle(part: &[char]) -> (r: bool)
    ensures
        r == is_idle(part@),
{
    part.len() == 0 || reads(part, ".")
}

fn parts_in(p: &[char]) -> (r: Vec<Vec<char>>)
    ensures
        rows(r@) == parts(p@),
{
    let all = pieces(p, '/');
    let ghost v = rows(all@);
    let mut out: Vec<Vec<char>> = Vec::new();
    proof {
        assert(rows(out@) =~= Seq::<Seq<char>>::empty());
    }
    for i in 0..all.len()
        invariant
            v == rows(all@),
            rows(out@) == parts_of(v.take(i as int)),
    {
        let ghost before = rows(out@);
        proof {
            assert(v.take(i as int + 1).drop_last() =~= v.take(i as int));
            assert(v.take(i as int + 1).last() == all@[i as int]@);
        }
        if !idle(all[i].as_slice()) {
            out.push(copied(all[i].as_slice()));
            proof {
                assert(rows(out@) =~= before.push(all@[i as int]@));
            }
        }
    }
    proof {
        assert(v.take(all@.len() as int) =~= v);
    }
    out
}

fn settle(v: &[Vec<char>]) -> (r: Vec<Vec<char>>)
    ensures
        rows(r@) == settled(rows(v@)),
{
    let ghost all = rows(v@);
    let mut out: Vec<Vec<char>> = Vec::new();
    proof {
        assert(rows(out@) =~= Seq::<Seq<char>>::empty());
    }
    for i in 0..v.len()
        invariant
            all == rows(v@),
            rows(out@) == settled(all.take(i as int)),
    {
        let ghost before = rows(out@);
        proof {
            assert(all.take(i as int + 1).drop_last() =~= all.take(i as int));
            assert(all.take(i as int + 1).last() == v@[i as int]@);
            assert(before.len() == out@.len());
        }
        if reads(v[i].as_slice(), "..") {
            if out.len() > 0 {
                out.pop();
                proof {
                    assert(rows(out@) =~= before.drop_last());
                }
            }
        } else {
            out.push(copied(v[i].as_slice()));
            proof {
                assert(rows(out@) =~= before.push(v@[i as int]@));
            }
        }
    }
    proof {
        assert(all.take(v@.len() as int) =~= all);
    }
    out
}

/// Brings a path into its lexical form.
pub fn lexical_path(p: &str) -> (r: String)
    ensures
        r@ == lexical(p@),
{
    let c = chars_of(p);
    let all = parts_in(c.as_slice());
    let left = settle(all.as_slice());
    let body = joined(left.as_slice(), "/");
    if absolute(c.as_slice()) {
        let mut out = chars_of("/");
        push_all(&mut out, body.as_slice());
        string_of(out.as_slice())
    } else {
        string_of(body.as_slice())
    }
}

fn expand_tilde(p: &[char], home: Option<&str>) -> (r: Vec<char>)
    ensures
        r@ == with_home(p@, crate::agent::opt_str(home)),
{
    match home {
        Some(h) => {
            let hv = chars_of(h);
            if reads(p, "~") {
                hv
            } else if begins(p, "~/") {
                proof {
                    reveal_strlit("~/");
                    assert(p@.skip(2) =~= p@.subrange(2, p.len() as int));
                }
                put_under(hv.as_slice(), slice_subrange(p, 2, p.len()))
            } else {
                copied(p)
            }
        },
        None => copied(p),
    }
}

/// Brings the path of a workspace into the form in which it is kept. `home` is
/// the user's home and `cwd` the directory that a relative path starts from.
pub fn normalize_workspace_path(path: &str, home: Option<&str>, cwd: Option<&str>) -> (r: String)
    ensures
        r@ == workspace_path(path@, crate::agent::opt_str(home), crate::agent::opt_str(cwd)),
{
    let p = chars_of(path);
    let e = expand_tilde(p.as_slice(), home);
    if absolute(e.as_slice()) {
        return lexical_path(string_of(e.as_slice()).as_str());
    }
    match cwd {
        Some(c) => {
            let cv = chars_of(c);
            let full = put_under(cv.as_slice(), e.as_slice());
            lexical_path(string_of(full.as_slice()).as_str())
        },
        None => lexical_path(string_of(e.as_slice()).as_str()),
    }
}

// ---------------------------------------------------------------------------
// Paths below others
// ---------------------------------------------------------------------------

/// The pieces of a path from the first that says something on.
pub open spec fn from_first(v: Seq<Seq<char>>) -> Seq<Seq<char>>
    decreases v.len(),
{
    if v.len() > 0 && is_idle(v[0]) {
        from_first(v.skip(1))
    } else {
        v
    }
}

/// The pieces of a path up to the last that says something.
pub open spec fn to_last(v: Seq<Seq<char>>) -> Seq<Seq<char>>
    decreases v.len(),
{
    if v.len() > 0 && is_idle(v.last()) {
        to_last(v.drop_last())
    } else {
        v
    }
}

/// What is left of the pieces `v` behind the parts `base`.
pub open spec fn behind(v: Seq<Seq<char>>, base: Seq<Seq<char>>) -> Option<Seq<Seq<char>>>
    decreases base.len(),
{
    let w = from_first(v);
    if base.len() == 0 {
        Some(to_last(w))
    } else if w.len() > 0 && w[0] == base[0] {
        behind(w.skip(1), base.skip(1))
    } else {
        None
    }
}

/// What is left of an absolute path behind an absolute path that contains it.
pub open spec fn below(full: Seq<char>, base: Seq<char>) -> Option<Seq<char>> {
    if is_absolute(full) && is_absolute(base) {
        match behind(split(full, '/'), parts(base)) {
            Some(v) => Some(join(v, "/"@)),
            None => None,
        }
    } else {
        None
    }
}

/// The path under which a file is shown: relative to the workspace where it is
/// below it, by the workspace's real path or by the one it is known as.
pub open spec fn shown_path(full: Seq<char>, root: Seq<char>, cwd: Seq<char>) -> Seq<char> {
    let p = match below(full, root) {
        Some(t) => t,
        None => match below(full, cwd) {
            Some(t) => t,
            None => full,
        },
    };
    p.map_values(
        |c: char|
            if c == '\\' {
                '/'
            } else {
                c
            },
    )
}

fn pieces_below(all: &[Vec<char>], base: &[Vec<char>]) -> (r: Option<Vec<Vec<char>>>)
    ensures
        match r {
            Some(v) => behind(rows(all@), rows(base@)) == Some(rows(v@)),
            None => behind(rows(all@), rows(base@)) is None,
        },
{
    let ghost v = rows(all@);
    let ghost b = rows(base@);
    let mut i: usize = 0;
    let mut k: usize = 0;
    proof {
        assert(v.skip(0) =~= v);
        assert(b.skip(0) =~= b);
    }
    loop
        invariant
            v == rows(all@),
            b == rows(base@),
            i <= all@.len(),
            k <= base@.len(),
            behind(v, b) == behind(v.skip(i as int), b.skip(k as int)),
        decreases all.len() - i, base.len() - k,
    {
        let ghost rest = v.skip(i as int);
        if i < all.len() && idle(all[i].as_slice()) {
            proof {
                assert(rest[0] == all@[i as int]@);
                assert(rest.skip(1) =~= v.skip(i as int + 1));
                assert(from_first(rest) == from_first(v.skip(i as int + 1)));
            }
            i = i + 1;
            continue;
        }
        proof {
            if i < all@.len() {
                assert(rest[0] == all@[i as int]@);
            }
            assert(from_first(rest) == rest);
        }
        if k == base.len() {
            let mut end: usize = all.len();
            proof {
                assert(v.subrange(i as int, end as int) =~= rest);
            }
            while end > i && idle(all[end - 1].as_slice())
                invariant
                    v == rows(all@),
                    i <= end <= all@.len(),
                    to_last(rest) == to_last(v.subrange(i as int, end as int)),
                decreases end,
            {
                proof {
                    let w = v.subrange(i as int, end as int);
                    assert(w.last() == all@[end as int - 1]@);
                    assert(w.drop_last() =~= v.subrange(i as int, end as int - 1));
                }
                end = end - 1;
            }
            proof {
                let w = v.subrange(i as int, end as int);
                if end > i {
                    assert(w.last() == all@[end as int - 1]@);
                }
                assert(to_last(w) == w);
            }
            let mut out: Vec<Vec<char>> = Vec::new();
            let mut j: usize = i;
            proof {
                assert(rows(out@) =~= v.subrange(i as int, i as int));
            }
            while j < end
                invariant
                    v == rows(all@),
                    i <= j <= end <= all@.len(),
                    rows(out@) == v.subrange(i as int, j as int),
                decreases end - j,
            {
                let ghost before = rows(out@);
                out.push(copied(all[j].as_slice()));
                proof {
                    assert(rows(out@) =~= before.push(v[j as int]));
                    assert(rows(out@) =~= v.subrange(i as int, j as int + 1));
                }
                j = j + 1;
            }
            return Some(out);
        }
        proof {
            assert(b.skip(k as int)[0] == base@[k as int]@);
        }
        if i < all.len() && same(all[i].as_slice(), base[k].as_slice()) {
            proof {
                assert(rest.skip(1) =~= v.skip(i as int + 1));
                assert(b.skip(k as int).skip(1) =~= b.skip(k as int + 1));
            }
            i = i + 1;
            k = k + 1;
        } else {
            return None;
        }
    }
}

fn path_below(full: &[char], base: &[char]) -> (r: Option<Vec<char>>)
    ensures
        match r {
            Some(t) => below(full@, base@) == Some(t@),
            None => below(full@, base@) is None,
        },
{
    if !absolute(full) || !absolute(base) {
        return None;
    }
    let all = pieces(full, '/');
    let b = parts_in(base);
    match pieces_below(all.as_slice(), b.as_slice()) {
        Some(v) => Some(joined(v.as_slice(), "/")),
        None => None,
    }
}

/// The path under which a file is shown.
pub fn relative_path(full: &str, root: &str, cwd: &str) -> (r: String)
    ensures
        r@ == shown_path(full@, root@, cwd@),
{
    let f = chars_of(full);
    let p = match path_below(f.as_slice(), chars_of(root).as_slice()) {
        Some(t) => t,
        None => match path_below(f.as_slice(), chars_of(cwd).as_slice()) {
            Some(t) => t,
            None => f,
        },
    };
    let mut out: Vec<char> = Vec::new();
    for i in 0..p.len()
        invariant
            out.len() == i,
            forall|k: int|
                0 <= k < i ==> out@[k] == if p@[k] == '\\' {
                    '/'
                } else {
                    p@[k]
                },
    {
        out.push(
            if p[i] == '\\' {
                '/'
            } else {
                p[i]
            },
        );
    }
    proof {
        assert(out@ =~= shown_path(full@, root@, cwd@));
    }
    string_of(out.as_slice())
}

// ---------------------------------------------------------------------------
// Names and parents
// ---------------------------------------------------------------------------

/// The name of a file: the last part of its path, unless that is `..`.
pub open spec fn name_of(p: Seq<char>) -> Option<Seq<char>> {
    let v = parts(p);
    if v.len() > 0 && v.last() != ".."@ {
        Some(v.last())
    } else {
        None
    }
}

/// The directory of a path: the path without its last part. Neither the root
/// nor an empty path has one.
pub open spec fn parent_of(p: Seq<char>) -> Option<Seq<char>> {
    let v = to_last(split(p, '/'));
    if v.len() == 0 {
        None
    } else {
        let body = join(to_last(v.drop_last()), "/"@);
        if is_absolute(p) && body.len() == 0 {
            Some("/"@)
        } else {
            Some(body)
        }
    }
}

/// The name of a file, if its path ends in one.
pub fn file_name(p: &str) -> (r: Option<String>)
    ensures
        opt_text(r) == name_of(p@),
{
    let c = chars_of(p);
    let v = parts_in(c.as_slice());
    let n = v.len();
    if n == 0 || reads(v[n - 1].as_slice(), "..") {
        None
    } else {
        Some(string_of(v[n - 1].as_slice()))
    }
}

fn end_of(v: &[Vec<char>], from: usize) -> (r: usize)
    requires
        from <= v@.len(),
    ensures
        r <= from,
        to_last(rows(v@).take(from as int)) == rows(v@).take(r as int),
{
    let ghost all = rows(v@);
    let mut end: usize = from;
    while end > 0 && idle(v[end - 1].as_slice())
        invariant
            all == rows(v@),
            end <= from <= v@.len(),
            to_last(all.take(from as int)) == to_last(all.take(end as int)),
        decreases end,
    {
        proof {
            let w = all.take(end as int);
            assert(w.last() == v@[end as int - 1]@);
            assert(w.drop_last() =~= all.take(end as int - 1));
        }
        end = end - 1;
    }
    proof {
        let w = all.take(end as int);
        if end > 0 {
            assert(w.last() == v@[end as int - 1]@);
        }
        assert(to_last(w) == w);
    }
    end
}

/// The directory of a path, if it has one.
pub fn parent_path(p: &str) -> (r: Option<String>)
    ensures
        opt_text(r) == parent_of(p@),
{
    let c = chars_of(p);
    let v = pieces(c.as_slice(), '/');
    let ghost all = rows(v@);
    let n = v.len();
    proof {
        assert(all.take(n as int) =~= all);
    }
    let end = end_of(v.as_slice(), n);
    if end == 0 {
        return None;
    }
    proof {
        assert(all.take(end as int).drop_last() =~= all.take(end as int - 1));
    }
    let top = end_of(v.as_slice(), end - 1);
    let kept = slice_subrange(v.as_slice(), 0, top);
    proof {
        assert(rows(kept@) =~= all.take(top as int));
    }
    let body = joined(kept, "/");
    if absolute(c.as_slice()) && body.len() == 0 {
        Some(text_from("/"))
    } else {
        Some(string_of(body.as_slice()))
    }
}

/// What of a path lies below another, if it lies there.
pub fn text_below(full: &str, base: &str) -> (r: Option<String>)
    ensures
        opt_text(r) == below(full@, base@),
{
    match path_below(chars_of(full).as_slice(), chars_of(base).as_slice()) {
        Some(t) => Some(string_of(t.as_slice())),
        None => None,
    }
}

/// The parts of a path that say something.
pub fn path_words(p: &str) -> (r: Vec<Vec<char>>)
    ensures
        rows(r@) == parts(p@),
{
    parts_in(chars_of(p).as_slice())
}

/// Whether a path is the same as another or lies below it.
pub fn lies_below(full: &str, base: &str) -> (r: bool)
    ensures
        r == (below(full@, base@) is Some),
{
    path_below(chars_of(full).as_slice(), chars_of(base).as_slice()).is_some()
}

// ---------------------------------------------------------------------------
// Laws
// ---------------------------------------------------------------------------

proof fn lemma_parts_of(v: Seq<Seq<char>>)
    ensures
        forall|k: int|
            0 <= k < parts_of(v).len() ==> !is_idle(#[trigger] parts_of(v)[k]) && v.contains(
                parts_of(v)[k],
            ),
    decreases v.len(),
{
    if v.len() > 0 {
        let d = v.drop_last();
        lemma_parts_of(d);
        assert forall|k: int| 0 <= k < parts_of(v).len() implies !is_idle(#[trigger] parts_of(v)[k])
            && v.contains(parts_of(v)[k]) by {
            if k < parts_of(d).len() {
                let x = parts_of(d)[k];
                assert(parts_of(v)[k] == x);
                let i = choose|i: int| 0 <= i < d.len() && d[i] == x;
                assert(v[i] == x);
            } else {
                assert(v[v.len() - 1] == v.last());
            }
        }
    }
}

proof fn lemma_settled(v: Seq<Seq<char>>)
    ensures
        forall|k: int|
            0 <= k < settled(v).len() ==> (#[trigger] settled(v)[k]) != ".."@ && v.contains(
                settled(v)[k],
            ),
    decreases v.len(),
{
    if v.len() > 0 {
        let d = v.drop_last();
        lemma_settled(d);
        assert forall|k: int| 0 <= k < settled(v).len() implies (#[trigger] settled(v)[k]) != ".."@
            && v.contains(settled(v)[k]) by {
            if k < settled(d).len() {
                let x = settled(d)[k];
                assert(settled(v)[k] == x);
                let i = choose|i: int| 0 <= i < d.len() && d[i] == x;
                assert(v[i] == x);
            } else {
                assert(v[v.len() - 1] == v.last());
            }
        }
    }
}

proof fn lemma_parts_kept(v: Seq<Seq<char>>)
    requires
        forall|k: int| 0 <= k < v.len() ==> !is_idle(#[trigger] v[k]),
    ensures
        parts_of(v) == v,
    decreases v.len(),
{
    if v.len() > 0 {
        lemma_parts_kept(v.drop_last());
        assert(!is_idle(v[v.len() - 1]));
        assert(v.drop_last().push(v.last()) =~= v);
    }
}

proof fn lemma_settled_kept(v: Seq<Seq<char>>)
    requires
        forall|k: int| 0 <= k < v.len() ==> #[trigger] v[k] != ".."@,
    ensures
        settled(v) == v,
    decreases v.len(),
{
    if v.len() > 0 {
        lemma_settled_kept(v.drop_last());
        assert(v[v.len() - 1] != ".."@);
        assert(v.drop_last().push(v.last()) =~= v);
    }
}

proof fn lemma_parts_front(head: Seq<char>, v: Seq<Seq<char>>)
    requires
        is_idle(head),
    ensures
        parts_of(seq![head] + v) == parts_of(v),
    decreases v.len(),
{
    let w = seq![head] + v;
    if v.len() == 0 {
        assert(w.drop_last() =~= Seq::<Seq<char>>::empty());
        assert(w.last() == head);
        assert(parts_of(w) == parts_of(w.drop_last()));
        assert(v =~= Seq::<Seq<char>>::empty());
    } else {
        lemma_parts_front(head, v.drop_last());
        assert(w.drop_last() =~= seq![head] + v.drop_last());
        assert(w.last() == v.last());
    }
}

/// The form is final: brought into it once more, a path stays as it is. So one
/// directory is kept under one text, however often it is named.
pub proof fn law_lexical_twice(p: Seq<char>)
    requires
        is_absolute(p),
    ensures
        lexical(lexical(p)) == lexical(p),
        is_absolute(lexical(p)),
{
    let v = settled(parts(p));
    lemma_split_free(p, '/');
    lemma_parts_of(split(p, '/'));
    lemma_settled(parts(p));
    assert forall|k: int| 0 <= k < v.len() implies !is_idle(#[trigger] v[k]) && v[k] != ".."@
        && !v[k].contains('/') by {
        let i = choose|i: int| 0 <= i < parts(p).len() && parts(p)[i] == v[k];
        assert(!is_idle(parts(p)[i]));
        let j = choose|j: int| 0 <= j < split(p, '/').len() && split(p, '/')[j] == v[k];
        assert(!split(p, '/')[j].contains('/'));
    }
    reveal_strlit("/");
    assert("/"@ =~= seq!['/']);
    let body = join(v, "/"@);
    let q = "/"@ + body;
    lemma_split_front(Seq::empty(), '/', body);
    assert(Seq::<char>::empty().push('/') + body =~= q);
    if v.len() > 0 {
        lemma_split_join(v, '/');
        lemma_parts_front(Seq::empty(), v);
        lemma_parts_kept(v);
    } else {
        crate::chars::lemma_find_from(body, '/', 0);
        assert(split(body, '/') =~= seq![body]);
        assert((seq![Seq::<char>::empty()] + split(body, '/')) =~= seq![
            Seq::<char>::empty(),
            body,
        ]);
        lemma_parts_front(Seq::empty(), seq![body]);
        assert(seq![body].drop_last() =~= Seq::<Seq<char>>::empty());
        assert(seq![body].last() == body);
        assert(body.len() == 0);
        assert(parts_of(seq![body]) == parts_of(Seq::<Seq<char>>::empty()));
        assert(parts_of(seq![body]) =~= v);
    }
    assert(parts(q) == v);
    lemma_settled_kept(v);
}

/// Separators at the end of a path do not count.
pub proof fn law_trailing_separator(p: Seq<char>)
    requires
        p.len() > 0,
    ensures
        lexical(p.push('/')) == lexical(p),
{
    lemma_split_back(p, '/');
    let v = split(p, '/');
    let w = split(p.push('/'), '/');
    assert(w == v.push(Seq::empty()));
    assert(w.drop_last() =~= v);
    assert(parts(p.push('/')) == parts(p));
    assert(p.push('/')[0] == p[0]);
}

proof fn lemma_split_back(s: Seq<char>, c: char)
    ensures
        split(s.push(c), c) == split(s, c).push(Seq::empty()),
    decreases s.len(),
{
    let t = s.push(c);
    crate::chars::lemma_find_from(s, c, 0);
    crate::chars::lemma_find_from(t, c, 0);
    match crate::chars::find(s, c) {
        Some(k) => {
            assert(t[k] == c);
            let kt = crate::chars::find(t, c)->0;
            assert(kt == k) by {
                if kt < k {
                    assert(t[kt] == s[kt]);
                }
            }
            assert(t.take(k) =~= s.take(k));
            assert(t.skip(k + 1) =~= s.skip(k + 1).push(c));
            lemma_split_back(s.skip(k + 1), c);
            assert(split(t, c) =~= split(s, c).push(Seq::empty()));
        },
        None => {
            assert(t[s.len() as int] == c);
            let kt = crate::chars::find(t, c)->0;
            assert(kt == s.len()) by {
                if kt < s.len() {
                    assert(t[kt] == s[kt]);
                }
            }
            assert(t.take(kt) =~= s);
            assert(t.skip(kt + 1) =~= Seq::<char>::empty());
            crate::chars::lemma_find_from(Seq::empty(), c, 0);
            assert(split(Seq::<char>::empty(), c) =~= seq![Seq::<char>::empty()]);
            assert(split(t, c) =~= seq![s] + seq![Seq::<char>::empty()]);
            assert(split(s, c) =~= seq![s]);
            assert(split(t, c) =~= split(s, c).push(Seq::empty()));
        },
    }
}

/// The parts of a path are all its pieces that say something, in their order.
pub proof fn law_parts_are_all_kept(v: Seq<Seq<char>>)
    ensures
        parts_of(v) == v.filter(|p: Seq<char>| p.len() > 0 && p != seq!['.']),
    decreases v.len(),
{
    reveal(Seq::filter);
    reveal_strlit(".");
    assert("."@ =~= seq!['.']);
    if v.len() > 0 {
        law_parts_are_all_kept(v.drop_last());
    }
}

/// A part that goes up takes the part before it away, and any other is kept.
pub proof fn law_up_takes_one_away(v: Seq<Seq<char>>, p: Seq<char>)
    ensures
        p != seq!['.', '.'] ==> settled(v.push(p)) == settled(v).push(p),
        p == seq!['.', '.'] && settled(v).len() > 0 ==> settled(v.push(p)) == settled(v).drop_last(),
        p == seq!['.', '.'] && settled(v).len() == 0 ==> settled(v.push(p)).len() == 0,
{
    reveal_strlit("..");
    assert(".."@ =~= seq!['.', '.']);
    assert(v.push(p).drop_last() =~= v);
}

/// Whether texts are parts of a path: none is empty or a single dot, and none
/// holds a separator.
pub open spec fn are_parts(v: Seq<Seq<char>>) -> bool {
    forall|i: int|
        0 <= i < v.len() ==> (#[trigger] v[i]).len() > 0 && v[i] != seq!['.'] && !v[i].contains('/')
}

/// A path under another one is shown by what stands behind that one.
pub proof fn law_below_is_what_follows(base: Seq<Seq<char>>, rest: Seq<Seq<char>>)
    requires
        are_parts(base),
        are_parts(rest),
        base.len() > 0,
        rest.len() > 0,
    ensures
        below(
            seq!['/'] + join(base + rest, seq!['/']),
            seq!['/'] + join(base, seq!['/']),
        ) == Some(join(rest, seq!['/'])),
{
    reveal_strlit("/");
    reveal_strlit(".");
    assert("/"@ =~= seq!['/']);
    assert("."@ =~= seq!['.']);
    let sep = seq!['/'];
    let all = base + rest;
    lemma_rooted_pieces(all);
    lemma_rooted_pieces(base);
    let none = Seq::<char>::empty();
    lemma_parts_rooted(base);
    let w = seq![none] + all;
    assert(w.skip(1) =~= all);
    assert(is_idle(w[0]));
    assert(from_first(w) == from_first(all));
    assert forall|i: int| 0 <= i < all.len() implies !is_idle(#[trigger] all[i]) by {
        if i < base.len() {
            assert(all[i] == base[i]);
        } else {
            assert(all[i] == rest[i - base.len()]);
        }
    }
    lemma_behind_parts(base, rest);
    assert(from_first(all) == all) by {
        assert(!is_idle(all[0]));
    }
    assert(behind(w, base) == behind(all, base));
}

proof fn lemma_rooted_pieces(v: Seq<Seq<char>>)
    requires
        are_parts(v),
        v.len() > 0,
    ensures
        split(seq!['/'] + join(v, seq!['/']), '/') == seq![Seq::<char>::empty()] + v,
{
    let none = Seq::<char>::empty();
    lemma_split_join(v, '/');
    lemma_split_front(none, '/', join(v, seq!['/']));
    assert(none.push('/') =~= seq!['/']);
}

proof fn lemma_parts_rooted(v: Seq<Seq<char>>)
    requires
        are_parts(v),
    ensures
        parts_of(seq![Seq::<char>::empty()] + v) == v,
    decreases v.len(),
{
    let none = Seq::<char>::empty();
    let w = seq![none] + v;
    reveal_strlit(".");
    assert("."@ =~= seq!['.']);
    if v.len() > 0 {
        let front = v.drop_last();
        assert forall|i: int| 0 <= i < front.len() implies (#[trigger] front[i]).len() > 0
            && front[i] != seq!['.'] && !front[i].contains('/') by {
            assert(front[i] == v[i]);
        }
        lemma_parts_rooted(front);
        assert(w.drop_last() =~= seq![none] + front);
        assert(w.last() == v.last());
        assert(v[v.len() - 1].len() > 0);
        assert(front.push(v.last()) =~= v);
    } else {
        assert(w.drop_last() =~= Seq::<Seq<char>>::empty());
        assert(w.last() == none);
        assert(parts_of(Seq::<Seq<char>>::empty()) =~= v);
    }
}

proof fn lemma_behind_parts(base: Seq<Seq<char>>, rest: Seq<Seq<char>>)
    requires
        rest.len() > 0,
        forall|i: int| 0 <= i < (base + rest).len() ==> !is_idle(#[trigger] (base + rest)[i]),
    ensures
        behind(base + rest, base) == Some(rest),
    decreases base.len(),
{
    let all = base + rest;
    assert(!is_idle(all[0]));
    if base.len() == 0 {
        assert(all =~= rest);
        assert(!is_idle(all[all.len() - 1]));
        assert(to_last(rest) == rest);
    } else {
        let fewer = base.skip(1);
        assert(all.skip(1) =~= fewer + rest);
        assert forall|i: int| 0 <= i < (fewer + rest).len() implies !is_idle(
            #[trigger] (fewer + rest)[i],
        ) by {
            assert((fewer + rest)[i] == all[i + 1]);
        }
        lemma_behind_parts(fewer, rest);
    }
}

} // verus!
