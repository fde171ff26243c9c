//! Text as sequences of characters: the searching, splitting and joining that
//! the other modules are built from.
//!
//! A text is a `Seq<char>` in contracts. Executable code works on `&[char]`
//! and turns to `String` at the edges (`chars_of`, `string_of`).

use vstd::prelude::*;
use vstd::slice::slice_subrange;

verus! {

/// `String::push` appends one character.
pub assume_specification[ String::push ](s: &mut String, c: char)
    ensures
        final(s)@ == old(s)@.push(c),
;

/// The texts that a list of strings holds.
pub open spec fn texts(v: Seq<String>) -> Seq<Seq<char>> {
    v.map_values(|s: String| s@)
}

/// The texts that a list of character vectors holds.
pub open spec fn rows(v: Seq<Vec<char>>) -> Seq<Seq<char>> {
    v.map_values(|s: Vec<char>| s@)
}

/// The text of an optional string.
pub open spec fn opt_text(v: Option<String>) -> Option<Seq<char>> {
    match v {
        Some(s) => Some(s@),
        None => None,
    }
}

/// The characters of a string, in order.
pub fn chars_of(s: &str) -> (r: Vec<char>)
    ensures
        r@ == s@,
{
    let mut v: Vec<char> = Vec::new();
    for c in it: s.chars()
        invariant
            v@ == s@.take(it.index() as int),
            it.seq() == s@,
    {
        v.push(c);
        proof {
            assert(s@.take(it.index() as int + 1) =~= s@.take(it.index() as int).push(c));
        }
    }
    proof {
        assert(s@.take(s@.len() as int) =~= s@);
    }
    v
}

/// The string whose characters are `v`.
pub fn string_of(v: &[char]) -> (r: String)
    ensures
        r@ == v@,
{
    let mut s = String::new();
    for i in 0..v.len()
        invariant
            s@ == v@.take(i as int),
    {
        s.push(v[i]);
        proof {
            assert(v@.take(i as int + 1) =~= v@.take(i as int).push(v@[i as int]));
        }
    }
    proof {
        assert(v@.take(v@.len() as int) =~= v@);
    }
    s
}

/// An owned copy of a character slice.
pub fn copied(v: &[char]) -> (r: Vec<char>)
    ensures
        r@ == v@,
{
    let mut s: Vec<char> = Vec::new();
    for i in 0..v.len()
        invariant
            s@ == v@.take(i as int),
    {
        s.push(v[i]);
        proof {
            assert(v@.take(i as int + 1) =~= v@.take(i as int).push(v@[i as int]));
        }
    }
    proof {
        assert(v@.take(v@.len() as int) =~= v@);
    }
    s
}

/// An owned copy of a list of strings.
pub fn copied_strings(v: &[String]) -> (r: Vec<String>)
    ensures
        texts(r@) == texts(v@),
{
    let mut out: Vec<String> = Vec::new();
    for i in 0..v.len()
        invariant
            out.len() == i,
            forall|k: int| 0 <= k < i ==> out@[k]@ == v@[k]@,
    {
        out.push(v[i].clone());
    }
    proof {
        assert(texts(out@) =~= texts(v@));
    }
    out
}

/// An owned copy of an optional string.
pub fn copied_opt(v: &Option<String>) -> (r: Option<String>)
    ensures
        opt_text(r) == opt_text(*v),
{
    match v {
        Some(s) => Some(s.clone()),
        None => None,
    }
}

/// Appends `t` to `out`.
pub fn push_all(out: &mut Vec<char>, t: &[char])
    ensures
        final(out)@ == old(out)@ + t@,
{
    let ghost before = out@;
    for i in 0..t.len()
        invariant
            out@ == before + t@.take(i as int),
    {
        out.push(t[i]);
        proof {
            assert(t@.take(i as int + 1) =~= t@.take(i as int).push(t@[i as int]));
        }
    }
    proof {
        assert(t@.take(t@.len() as int) =~= t@);
    }
}

/// Appends the characters of `t` to `out`.
pub fn push_text(out: &mut Vec<char>, t: &str)
    ensures
        final(out)@ == old(out)@ + t@,
{
    let w = chars_of(t);
    push_all(out, w.as_slice());
}

/// Whether two character slices are equal.
pub fn same(a: &[char], b: &[char]) -> (r: bool)
    ensures
        r == (a@ == b@),
{
    if a.len() != b.len() {
        return false;
    }
    for i in 0..a.len()
        invariant
            a.len() == b.len(),
            a@.take(i as int) == b@.take(i as int),
    {
        if a[i] != b[i] {
            return false;
        }
        proof {
            assert(a@.take(i as int + 1) =~= a@.take(i as int).push(a@[i as int]));
            assert(b@.take(i as int + 1) =~= b@.take(i as int).push(b@[i as int]));
        }
    }
    proof {
        assert(a@.take(a@.len() as int) =~= a@);
        assert(b@.take(b@.len() as int) =~= b@);
    }
    true
}

/// Whether the slice reads exactly `t`.
pub fn reads(s: &[char], t: &str) -> (r: bool)
    ensures
        r == (s@ == t@),
{
    let w = chars_of(t);
    same(s, w.as_slice())
}

/// Whether two strings are equal.
pub fn str_eq(a: &str, b: &str) -> (r: bool)
    ensures
        r == (a@ == b@),
{
    let v = chars_of(a);
    reads(v.as_slice(), b)
}

/// Whether `list` holds the text `t`.
pub fn holds_text(list: &[String], t: &str) -> (r: bool)
    ensures
        r == texts(list@).contains(t@),
{
    for i in 0..list.len()
        invariant
            forall|k: int| 0 <= k < i ==> texts(list@)[k] != t@,
    {
        if str_eq(list[i].as_str(), t) {
            proof {
                assert(texts(list@)[i as int] == t@);
            }
            return true;
        }
    }
    false
}

/// The characters with Unicode's White_Space property.
pub open spec fn is_white(c: char) -> bool {
    let n = c as u32;
    ||| 0x09 <= n <= 0x0D
    ||| n == 0x20
    ||| n == 0x85
    ||| n == 0xA0
    ||| n == 0x1680
    ||| 0x2000 <= n <= 0x200A
    ||| n == 0x2028
    ||| n == 0x2029
    ||| n == 0x202F
    ||| n == 0x205F
    ||| n == 0x3000
}

/// Whether `c` is white space.
pub fn white(c: char) -> (r: bool)
    ensures
        r == is_white(c),
{
    let n: u32 = c as u32;
    (0x09 <= n && n <= 0x0D) || n == 0x20 || n == 0x85 || n == 0xA0 || n == 0x1680 || (0x2000 <= n
        && n <= 0x200A) || n == 0x2028 || n == 0x2029 || n == 0x202F || n == 0x205F || n == 0x3000
}

/// `s` without the white space at its start.
pub open spec fn trim_start(s: Seq<char>) -> Seq<char>
    decreases s.len(),
{
    if s.len() > 0 && is_white(s[0]) {
        trim_start(s.skip(1))
    } else {
        s
    }
}

/// `s` without the white space at its end.
pub open spec fn trim_end(s: Seq<char>) -> Seq<char>
    decreases s.len(),
{
    if s.len() > 0 && is_white(s.last()) {
        trim_end(s.drop_last())
    } else {
        s
    }
}

/// `s` without the white space at either end.
pub open spec fn trim(s: Seq<char>) -> Seq<char> {
    trim_end(trim_start(s))
}

/// Drops the white space at the start.
pub fn trimmed_start(s: &[char]) -> (r: &[char])
    ensures
        r@ == trim_start(s@),
{
    let mut i: usize = 0;
    proof {
        assert(s@.skip(0) =~= s@);
    }
    while i < s.len() && white(s[i])
        invariant
            i <= s.len(),
            trim_start(s@) == trim_start(s@.skip(i as int)),
        decreases s.len() - i,
    {
        proof {
            assert(s@.skip(i as int).skip(1) =~= s@.skip(i as int + 1));
        }
        i = i + 1;
    }
    proof {
        assert(s@.skip(i as int) =~= s@.subrange(i as int, s.len() as int));
    }
    slice_subrange(s, i, s.len())
}

/// Drops the white space at the end.
pub fn trimmed_end(s: &[char]) -> (r: &[char])
    ensures
        r@ == trim_end(s@),
{
    let mut n: usize = s.len();
    proof {
        assert(s@.take(n as int) =~= s@);
    }
    while n > 0 && white(s[n - 1])
        invariant
            n <= s.len(),
            trim_end(s@) == trim_end(s@.take(n as int)),
        decreases n,
    {
        proof {
            assert(s@.take(n as int).drop_last() =~= s@.take(n as int - 1));
        }
        n = n - 1;
    }
    proof {
        assert(s@.take(n as int) =~= s@.subrange(0, n as int));
    }
    slice_subrange(s, 0, n)
}

/// Drops the white space at both ends.
pub fn trimmed(s: &[char]) -> (r: &[char])
    ensures
        r@ == trim(s@),
{
    trimmed_end(trimmed_start(s))
}

/// `s` without any `c` at its end.
pub open spec fn trim_end_char(s: Seq<char>, c: char) -> Seq<char>
    decreases s.len(),
{
    if s.len() > 0 && s.last() == c {
        trim_end_char(s.drop_last(), c)
    } else {
        s
    }
}

/// Drops every `c` at the end.
pub fn without_end(s: &[char], c: char) -> (r: &[char])
    ensures
        r@ == trim_end_char(s@, c),
{
    let mut n: usize = s.len();
    proof {
        assert(s@.take(n as int) =~= s@);
    }
    while n > 0 && s[n - 1] == c
        invariant
            n <= s.len(),
            trim_end_char(s@, c) == trim_end_char(s@.take(n as int), c),
        decreases n,
    {
        proof {
            assert(s@.take(n as int).drop_last() =~= s@.take(n as int - 1));
        }
        n = n - 1;
    }
    proof {
        assert(s@.take(n as int) =~= s@.subrange(0, n as int));
    }
    slice_subrange(s, 0, n)
}

/// At most the first `n` characters of `s`.
pub open spec fn prefix(s: Seq<char>, n: int) -> Seq<char> {
    if s.len() <= n {
        s
    } else {
        s.take(n)
    }
}

/// Takes at most the first `n` characters.
pub fn first_chars(s: &[char], n: usize) -> (r: &[char])
    ensures
        r@ == prefix(s@, n as int),
{
    if s.len() <= n {
        s
    } else {
        proof {
            assert(s@.take(n as int) =~= s@.subrange(0, n as int));
        }
        slice_subrange(s, 0, n)
    }
}

/// The first position of `c` in `s` at or after `i`.
pub open spec fn find_from(s: Seq<char>, c: char, i: int) -> Option<int>
    decreases s.len() - i,
{
    if i < 0 || i >= s.len() {
        None
    } else if s[i] == c {
        Some(i)
    } else {
        find_from(s, c, i + 1)
    }
}

/// The first position of `c` in `s`.
pub open spec fn find(s: Seq<char>, c: char) -> Option<int> {
    find_from(s, c, 0)
}

/// What `find_from` finds is there, and nothing before it is.
pub proof fn lemma_find_from(s: Seq<char>, c: char, i: int)
    requires
        0 <= i,
    ensures
        match find_from(s, c, i) {
            Some(k) => i <= k < s.len() && s[k] == c && (forall|j: int| i <= j < k ==> s[j] != c),
            None => forall|j: int| i <= j < s.len() ==> s[j] != c,
        },
    decreases s.len() - i,
{
    if i < s.len() && s[i] != c {
        lemma_find_from(s, c, i + 1);
    }
}

/// Finds the first `c`.
pub fn position(s: &[char], c: char) -> (r: Option<usize>)
    ensures
        match r {
            Some(k) => find(s@, c) == Some(k as int) && k < s.len() && s@[k as int] == c,
            None => find(s@, c) is None,
        },
{
    let mut i: usize = 0;
    while i < s.len()
        invariant
            i <= s.len(),
            find(s@, c) == find_from(s@, c, i as int),
        decreases s.len() - i,
    {
        if s[i] == c {
            return Some(i);
        }
        i = i + 1;
    }
    None
}

/// The parts of `s` before and after its first `c`.
pub open spec fn split_once(s: Seq<char>, c: char) -> Option<(Seq<char>, Seq<char>)> {
    match find(s, c) {
        Some(k) => Some((s.take(k), s.skip(k + 1))),
        None => None,
    }
}

/// Splits at the first `c`.
pub fn cut(s: &[char], c: char) -> (r: Option<(&[char], &[char])>)
    ensures
        match r {
            Some(p) => split_once(s@, c) == Some((p.0@, p.1@)),
            None => split_once(s@, c) is None,
        },
{
    match position(s, c) {
        Some(k) => {
            proof {
                assert(s@.take(k as int) =~= s@.subrange(0, k as int));
                assert(s@.skip(k as int + 1) =~= s@.subrange(k as int + 1, s.len() as int));
            }
            Some((slice_subrange(s, 0, k), slice_subrange(s, k + 1, s.len())))
        },
        None => None,
    }
}

/// The pieces of `s` between the occurrences of `c`: one more than there are
/// occurrences.
pub open spec fn split(s: Seq<char>, c: char) -> Seq<Seq<char>>
    decreases s.len(),
{
    match find(s, c) {
        Some(k) => if 0 <= k < s.len() {
            seq![s.take(k)] + split(s.skip(k + 1), c)
        } else {
            seq![s]
        },
        None => seq![s],
    }
}

/// Splits at every `c`.
pub fn pieces(s: &[char], c: char) -> (r: Vec<Vec<char>>)
    ensures
        rows(r@) == split(s@, c),
{
    let mut out: Vec<Vec<char>> = Vec::new();
    let mut rest: &[char] = s;
    proof {
        assert(rows(out@) + split(rest@, c) =~= split(s@, c));
    }
    loop
        invariant
            rows(out@) + split(rest@, c) == split(s@, c),
        decreases rest.len(),
    {
        match position(rest, c) {
            Some(k) => {
                let ghost before = rows(out@);
                let ghost whole = rest@;
                let head = slice_subrange(rest, 0, k);
                out.push(copied(head));
                rest = slice_subrange(rest, k + 1, rest.len());
                proof {
                    assert(rows(out@) =~= before.push(whole.take(k as int)));
                    assert(rest@ =~= whole.skip(k as int + 1));
                    assert(rows(out@) + split(rest@, c) =~= before + split(whole, c));
                }
            },
            None => {
                let ghost before = rows(out@);
                out.push(copied(rest));
                proof {
                    assert(rows(out@) =~= before + seq![rest@]);
                }
                return out;
            },
        }
    }
}

/// `s` without one carriage return at its end.
pub open spec fn strip_cr(s: Seq<char>) -> Seq<char> {
    if s.len() > 0 && s.last() == '\r' {
        s.drop_last()
    } else {
        s
    }
}

/// The lines of `s`: each ends at a line feed, which is dropped together with
/// a carriage return before it; an empty rest after the last line feed is no
/// line.
pub open spec fn lines(s: Seq<char>) -> Seq<Seq<char>>
    decreases s.len(),
{
    if s.len() == 0 {
        Seq::empty()
    } else {
        match find(s, '\n') {
            Some(k) => if 0 <= k < s.len() {
                seq![strip_cr(s.take(k))] + lines(s.skip(k + 1))
            } else {
                seq![s]
            },
            None => seq![s],
        }
    }
}

/// Drops one carriage return at the end.
pub fn without_cr(s: &[char]) -> (r: &[char])
    ensures
        r@ == strip_cr(s@),
{
    if s.len() > 0 && s[s.len() - 1] == '\r' {
        proof {
            assert(s@.drop_last() =~= s@.subrange(0, s.len() as int - 1));
        }
        slice_subrange(s, 0, s.len() - 1)
    } else {
        s
    }
}

/// Splits a text into its lines.
pub fn lines_of(s: &[char]) -> (r: Vec<Vec<char>>)
    ensures
        rows(r@) == lines(s@),
{
    let mut out: Vec<Vec<char>> = Vec::new();
    let mut rest: &[char] = s;
    proof {
        assert(rows(out@) + lines(rest@) =~= lines(s@));
    }
    while rest.len() > 0
        invariant
            rows(out@) + lines(rest@) == lines(s@),
        decreases rest.len(),
    {
        let ghost before = rows(out@);
        let ghost whole = rest@;
        match position(rest, '\n') {
            Some(k) => {
                let head = slice_subrange(rest, 0, k);
                proof {
                    assert(head@ =~= whole.take(k as int));
                }
                out.push(copied(without_cr(head)));
                rest = slice_subrange(rest, k + 1, rest.len());
                proof {
                    assert(rows(out@) =~= before.push(strip_cr(whole.take(k as int))));
                    assert(rest@ =~= whole.skip(k as int + 1));
                    assert(rows(out@) + lines(rest@) =~= before + lines(whole));
                }
            },
            None => {
                out.push(copied(rest));
                rest = slice_subrange(rest, 0, 0);
                proof {
                    assert(rows(out@) =~= before + seq![whole]);
                    assert(rest@ =~= Seq::<char>::empty());
                    assert(rows(out@) + lines(rest@) =~= before + lines(whole));
                }
            },
        }
    }
    proof {
        assert(rows(out@) + lines(rest@) =~= rows(out@));
    }
    out
}

/// The texts of `v` with `sep` between neighbours.
pub open spec fn join(v: Seq<Seq<char>>, sep: Seq<char>) -> Seq<char>
    decreases v.len(),
{
    if v.len() == 0 {
        Seq::empty()
    } else if v.len() == 1 {
        v[0]
    } else {
        join(v.drop_last(), sep) + sep + v.last()
    }
}

/// Joins texts with `sep` between neighbours.
pub fn joined(v: &[Vec<char>], sep: &str) -> (r: Vec<char>)
    ensures
        r@ == join(rows(v@), sep@),
{
    let mut out: Vec<char> = Vec::new();
    for i in 0..v.len()
        invariant
            out@ == join(rows(v@).take(i as int), sep@),
    {
        if i > 0 {
            push_text(&mut out, sep);
        }
        push_all(&mut out, v[i].as_slice());
        proof {
            assert(rows(v@).take(i as int + 1).drop_last() =~= rows(v@).take(i as int));
            assert(rows(v@).take(i as int + 1).last() == v@[i as int]@);
            assert(out@ =~= join(rows(v@).take(i as int + 1), sep@));
        }
    }
    proof {
        assert(rows(v@).take(v@.len() as int) =~= rows(v@));
    }
    out
}

/// Joins strings with `sep` between neighbours.
pub fn joined_strings(v: &[String], sep: &str) -> (r: Vec<char>)
    ensures
        r@ == join(texts(v@), sep@),
{
    let mut out: Vec<char> = Vec::new();
    for i in 0..v.len()
        invariant
            out@ == join(texts(v@).take(i as int), sep@),
    {
        if i > 0 {
            push_text(&mut out, sep);
        }
        push_text(&mut out, v[i].as_str());
        proof {
            assert(texts(v@).take(i as int + 1).drop_last() =~= texts(v@).take(i as int));
            assert(texts(v@).take(i as int + 1).last() == v@[i as int]@);
            assert(out@ =~= join(texts(v@).take(i as int + 1), sep@));
        }
    }
    proof {
        assert(texts(v@).take(v@.len() as int) =~= texts(v@));
    }
    out
}

/// Whether `p` stands in `s` at position `i`.
pub open spec fn stands_at(s: Seq<char>, p: Seq<char>, i: int) -> bool {
    0 <= i && i + p.len() <= s.len() && s.subrange(i, i + p.len()) == p
}

/// Whether `p` stands in `s` at position `i`.
pub fn found_at(s: &[char], p: &[char], i: usize) -> (r: bool)
    ensures
        r == stands_at(s@, p@, i as int),
{
    if i > s.len() || p.len() > s.len() - i {
        return false;
    }
    proof {
        assert(s@.subrange(i as int, i + p.len()) =~= s@.skip(i as int).take(p.len() as int));
    }
    same(slice_subrange(s, i, i + p.len()), p)
}

/// Whether `s` begins with `p`.
pub open spec fn starts_with(s: Seq<char>, p: Seq<char>) -> bool {
    stands_at(s, p, 0)
}

/// Whether `s` ends with `p`.
pub open spec fn ends_with(s: Seq<char>, p: Seq<char>) -> bool {
    p.len() <= s.len() && stands_at(s, p, s.len() - p.len())
}

/// Whether `s` begins with `p`.
pub fn begins(s: &[char], p: &str) -> (r: bool)
    ensures
        r == starts_with(s@, p@),
{
    let w = chars_of(p);
    found_at(s, w.as_slice(), 0)
}

/// Whether `s` ends with `p`.
pub fn finishes(s: &[char], p: &str) -> (r: bool)
    ensures
        r == ends_with(s@, p@),
{
    let w = chars_of(p);
    if w.len() > s.len() {
        return false;
    }
    found_at(s, w.as_slice(), s.len() - w.len())
}

/// The first position at or after `i` at which `p` stands in `s`.
pub open spec fn find_sub_from(s: Seq<char>, p: Seq<char>, i: int) -> Option<int>
    decreases s.len() - i + 1,
{
    if i < 0 || i > s.len() {
        None
    } else if stands_at(s, p, i) {
        Some(i)
    } else {
        find_sub_from(s, p, i + 1)
    }
}

/// The first position at which `p` stands in `s`.
pub open spec fn find_sub(s: Seq<char>, p: Seq<char>) -> Option<int> {
    find_sub_from(s, p, 0)
}

/// What `find_sub_from` finds stands there, and nowhere before.
pub proof fn lemma_find_sub_from(s: Seq<char>, p: Seq<char>, i: int)
    requires
        0 <= i,
    ensures
        match find_sub_from(s, p, i) {
            Some(k) => i <= k && stands_at(s, p, k) && (forall|j: int|
                i <= j < k ==> !stands_at(s, p, j)),
            None => forall|j: int| i <= j ==> !stands_at(s, p, j),
        },
    decreases s.len() - i + 1,
{
    if i <= s.len() && !stands_at(s, p, i) {
        lemma_find_sub_from(s, p, i + 1);
    }
}

/// Finds `p` at or after `from`.
pub fn position_sub_from(s: &[char], p: &[char], from: usize) -> (r: Option<usize>)
    ensures
        match r {
            Some(k) => find_sub_from(s@, p@, from as int) == Some(k as int) && stands_at(
                s@,
                p@,
                k as int,
            ) && from <= k,
            None => find_sub_from(s@, p@, from as int) is None,
        },
{
    if from > s.len() {
        return None;
    }
    let mut i: usize = from;
    loop
        invariant
            from <= i <= s.len(),
            find_sub_from(s@, p@, from as int) == find_sub_from(s@, p@, i as int),
        decreases s.len() - i,
    {
        if found_at(s, p, i) {
            return Some(i);
        }
        if i == s.len() {
            proof {
                assert(find_sub_from(s@, p@, i as int + 1) is None);
            }
            return None;
        }
        i = i + 1;
    }
}

/// Finds the first `p`.
pub fn position_sub(s: &[char], p: &str) -> (r: Option<usize>)
    ensures
        match r {
            Some(k) => find_sub(s@, p@) == Some(k as int) && stands_at(s@, p@, k as int),
            None => find_sub(s@, p@) is None,
        },
{
    let w = chars_of(p);
    position_sub_from(s, w.as_slice(), 0)
}

/// Whether `p` stands anywhere in `s`.
pub open spec fn contains(s: Seq<char>, p: Seq<char>) -> bool {
    exists|i: int| #[trigger] stands_at(s, p, i)
}

/// Whether `p` stands anywhere in `s`.
pub fn has_sub(s: &[char], p: &str) -> (r: bool)
    ensures
        r == contains(s@, p@),
{
    proof {
        lemma_find_sub_from(s@, p@, 0);
    }
    match position_sub(s, p) {
        Some(_k) => true,
        None => false,
    }
}

/// `s` with each occurrence of `from`, taken from the left without overlap,
/// replaced by `to`. An empty `from` replaces nothing.
pub open spec fn replace(s: Seq<char>, from: Seq<char>, to: Seq<char>) -> Seq<char>
    decreases s.len(),
{
    match find_sub(s, from) {
        Some(k) => if from.len() > 0 && 0 <= k && k + from.len() <= s.len() {
            s.take(k) + to + replace(s.skip(k + from.len()), from, to)
        } else {
            s
        },
        None => s,
    }
}

/// Replaces each occurrence of `from`.
pub fn replaced(s: &[char], from: &[char], to: &[char]) -> (r: Vec<char>)
    ensures
        r@ == replace(s@, from@, to@),
{
    let mut out: Vec<char> = Vec::new();
    let mut rest: &[char] = s;
    proof {
        assert(out@ + replace(rest@, from@, to@) =~= replace(s@, from@, to@));
    }
    loop
        invariant
            out@ + replace(rest@, from@, to@) == replace(s@, from@, to@),
        decreases rest.len(),
    {
        if from.len() == 0 {
            push_all(&mut out, rest);
            return out;
        }
        match position_sub_from(rest, from, 0) {
            Some(k) => {
                let ghost before = out@;
                let ghost whole = rest@;
                push_all(&mut out, slice_subrange(rest, 0, k));
                push_all(&mut out, to);
                rest = slice_subrange(rest, k + from.len(), rest.len());
                proof {
                    assert(rest@ =~= whole.skip(k + from.len()));
                    assert(whole.subrange(0, k as int) =~= whole.take(k as int));
                    assert(out@ + replace(rest@, from@, to@) =~= before + replace(
                        whole,
                        from@,
                        to@,
                    ));
                }
            },
            None => {
                push_all(&mut out, rest);
                return out;
            },
        }
    }
}

/// The lower-case form of an ASCII capital; any other character as it is.
pub open spec fn lower_char(c: char) -> char {
    if 'A' <= c <= 'Z' {
        (c as u32 + 32) as char
    } else {
        c
    }
}

/// `s` with its ASCII capitals in lower case.
pub open spec fn ascii_lower(s: Seq<char>) -> Seq<char> {
    s.map_values(|c: char| lower_char(c))
}

/// Lower-cases one ASCII capital.
pub fn lowered_char(c: char) -> (r: char)
    ensures
        r == lower_char(c),
{
    if 'A' <= c && c <= 'Z' {
        ((c as u8) + 32) as char
    } else {
        c
    }
}

/// Lower-cases the ASCII capitals.
pub fn lowered(s: &[char]) -> (r: Vec<char>)
    ensures
        r@ == ascii_lower(s@),
{
    let mut out: Vec<char> = Vec::new();
    for i in 0..s.len()
        invariant
            out@ == ascii_lower(s@.take(i as int)),
    {
        out.push(lowered_char(s[i]));
        proof {
            assert(out@ =~= ascii_lower(s@.take(i as int + 1)));
        }
    }
    proof {
        assert(s@.take(s@.len() as int) =~= s@);
    }
    out
}

/// Whether `c` is an ASCII decimal digit.
pub open spec fn is_digit(c: char) -> bool {
    '0' <= c <= '9'
}

/// Whether `c` is an ASCII decimal digit.
pub fn digit(c: char) -> (r: bool)
    ensures
        r == is_digit(c),
{
    '0' <= c && c <= '9'
}

/// The character of a decimal digit.
pub open spec fn digit_char(d: nat) -> char {
    (48 + d) as char
}

/// The decimal digits of `n`, without leading zeros.
pub open spec fn decimal(n: nat) -> Seq<char>
    decreases n,
{
    if n < 10 {
        seq![digit_char(n)]
    } else {
        decimal(n / 10).push(digit_char(n % 10))
    }
}

/// Writes a number in decimal.
pub fn decimal_of(n: u64) -> (r: Vec<char>)
    ensures
        r@ == decimal(n as nat),
    decreases n,
{
    if n < 10 {
        let mut v: Vec<char> = Vec::new();
        v.push((48 + (n as u8)) as char);
        proof {
            assert(v@ =~= decimal(n as nat));
        }
        v
    } else {
        let mut v = decimal_of(n / 10);
        v.push((48 + ((n % 10) as u8)) as char);
        v
    }
}

/// The value of a digit string read in base ten.
pub open spec fn digits_value(s: Seq<char>) -> nat
    decreases s.len(),
{
    if s.len() == 0 {
        0
    } else {
        digits_value(s.drop_last()) * 10 + ((s.last() as u32 - 48) as nat)
    }
}

/// Whether `s` is one or more decimal digits.
pub open spec fn all_digits(s: Seq<char>) -> bool {
    s.len() > 0 && forall|i: int| 0 <= i < s.len() ==> is_digit(#[trigger] s[i])
}

/// `s` without one plus sign at its start.
pub open spec fn unsigned_part(s: Seq<char>) -> Seq<char> {
    if s.len() > 0 && s[0] == '+' {
        s.skip(1)
    } else {
        s
    }
}

/// The number that `s` writes, where it is an optional plus sign followed by
/// decimal digits and does not exceed `max`.
pub open spec fn parse_number(s: Seq<char>, max: nat) -> Option<nat> {
    let t = unsigned_part(s);
    if all_digits(t) && digits_value(t) <= max {
        Some(digits_value(t))
    } else {
        None
    }
}

/// Longer digit strings write larger numbers.
pub proof fn lemma_digits_prefix(s: Seq<char>, i: int)
    requires
        all_digits(s),
        0 <= i <= s.len(),
    ensures
        digits_value(s.take(i)) <= digits_value(s),
    decreases s.len() - i,
{
    if i == s.len() {
        assert(s.take(i) =~= s);
    } else {
        lemma_digits_prefix(s, i + 1);
        assert(s.take(i + 1).drop_last() =~= s.take(i));
    }
}

/// Reads a number no larger than `max`.
pub fn number_of(s: &[char], max: u64) -> (r: Option<u64>)
    ensures
        match r {
            Some(n) => parse_number(s@, max as nat) == Some(n as nat),
            None => parse_number(s@, max as nat) is None,
        },
{
    let t: &[char] = if s.len() > 0 && s[0] == '+' {
        proof {
            assert(s@.skip(1) =~= s@.subrange(1, s.len() as int));
        }
        slice_subrange(s, 1, s.len())
    } else {
        s
    };
    if t.len() == 0 {
        return None;
    }
    for i in 0..t.len()
        invariant
            t@ == unsigned_part(s@),
            forall|k: int| 0 <= k < i ==> is_digit(#[trigger] t@[k]),
    {
        if !digit(t[i]) {
            proof {
                assert(!is_digit(t@[i as int]));
            }
            return None;
        }
    }
    let mut n: u64 = 0;
    for i in 0..t.len()
        invariant
            all_digits(t@),
            n == digits_value(t@.take(i as int)),
            n <= max,
            t@ == unsigned_part(s@),
    {
        let d: u64 = (t[i] as u32 - 48) as u64;
        proof {
            assert(is_digit(t@[i as int]));
            assert(t@.take(i as int + 1).drop_last() =~= t@.take(i as int));
            lemma_digits_prefix(t@, i as int + 1);
        }
        if n > (u64::MAX - d) / 10 || n * 10 + d > max {
            return None;
        }
        n = n * 10 + d;
    }
    proof {
        assert(t@.take(t@.len() as int) =~= t@);
    }
    Some(n)
}

/// How many characters of `s` come before its first white space.
pub open spec fn word_len(s: Seq<char>) -> int
    decreases s.len(),
{
    if s.len() == 0 || is_white(s[0]) {
        0
    } else {
        1 + word_len(s.skip(1))
    }
}

/// The words of `s`: what stands between white space.
pub open spec fn words(s: Seq<char>) -> Seq<Seq<char>>
    decreases s.len(),
    via words_decrease
{
    let t = trim_start(s);
    if t.len() == 0 {
        Seq::empty()
    } else {
        seq![t.take(word_len(t))] + words(t.skip(word_len(t)))
    }
}

#[via_fn]
proof fn words_decrease(s: Seq<char>) {
    lemma_trim_start(s);
    lemma_word_len(trim_start(s));
}

/// What is left begins with no white space, and is no longer than before.
pub proof fn lemma_trim_start(s: Seq<char>)
    ensures
        trim_start(s).len() <= s.len(),
        trim_start(s).len() > 0 ==> !is_white(trim_start(s)[0]),
    decreases s.len(),
{
    if s.len() > 0 && is_white(s[0]) {
        lemma_trim_start(s.skip(1));
    }
}

/// A word has a character where `s` begins with one, ends with the text, and
/// holds no white space.
pub proof fn lemma_word_len(s: Seq<char>)
    ensures
        0 <= word_len(s) <= s.len(),
        s.len() > 0 && !is_white(s[0]) ==> word_len(s) > 0,
        word_len(s) < s.len() ==> is_white(s[word_len(s)]),
        forall|i: int| 0 <= i < word_len(s) ==> !is_white(#[trigger] s[i]),
    decreases s.len(),
{
    if s.len() > 0 && !is_white(s[0]) {
        let t = s.skip(1);
        lemma_word_len(t);
        assert forall|i: int| 0 <= i < word_len(s) implies !is_white(#[trigger] s[i]) by {
            if i > 0 {
                assert(t[i - 1] == s[i]);
            }
        }
    }
}

fn word_length(s: &[char]) -> (r: usize)
    ensures
        r == word_len(s@),
{
    let mut n: usize = 0;
    proof {
        assert(s@.skip(0) =~= s@);
    }
    while n < s.len() && !white(s[n])
        invariant
            n <= s.len(),
            word_len(s@) == n + word_len(s@.skip(n as int)),
        decreases s.len() - n,
    {
        proof {
            assert(s@.skip(n as int).skip(1) =~= s@.skip(n as int + 1));
        }
        n = n + 1;
    }
    n
}

/// Splits a text into its words.
pub fn words_of(s: &[char]) -> (r: Vec<Vec<char>>)
    ensures
        rows(r@) == words(s@),
{
    let mut out: Vec<Vec<char>> = Vec::new();
    let mut rest: &[char] = s;
    proof {
        assert(rows(out@) + words(rest@) =~= words(s@));
    }
    loop
        invariant
            rows(out@) + words(rest@) == words(s@),
        decreases rest.len(),
    {
        let ghost before = rows(out@);
        let ghost whole = rest@;
        let t = trimmed_start(rest);
        proof {
            lemma_trim_start(whole);
            lemma_word_len(t@);
        }
        if t.len() == 0 {
            proof {
                assert(rows(out@) + words(rest@) =~= rows(out@));
            }
            return out;
        }
        let n = word_length(t);
        out.push(copied(slice_subrange(t, 0, n)));
        rest = slice_subrange(t, n, t.len());
        proof {
            assert(t@.subrange(0, n as int) =~= t@.take(n as int));
            assert(rows(out@) =~= before.push(t@.take(n as int)));
            assert(rest@ =~= t@.skip(n as int));
            assert(rows(out@) + words(rest@) =~= before + words(whole));
        }
    }
}

/// Whether `s` holds the character `c`.
pub fn has_char(s: &[char], c: char) -> (r: bool)
    ensures
        r == s@.contains(c),
{
    for i in 0..s.len()
        invariant
            forall|k: int| 0 <= k < i ==> s@[k] != c,
    {
        if s[i] == c {
            return true;
        }
    }
    false
}

/// What stands behind the last `c` of `s`; all of it where there is none.
pub open spec fn after_last(s: Seq<char>, c: char) -> Seq<char>
    decreases s.len(),
{
    match find(s, c) {
        Some(k) => if 0 <= k < s.len() {
            after_last(s.skip(k + 1), c)
        } else {
            s
        },
        None => s,
    }
}

/// Takes what stands behind the last `c`.
pub fn behind_last(s: &[char], c: char) -> (r: &[char])
    ensures
        r@ == after_last(s@, c),
{
    let mut rest: &[char] = s;
    loop
        invariant
            after_last(rest@, c) == after_last(s@, c),
        decreases rest.len(),
    {
        match position(rest, c) {
            Some(k) => {
                let ghost whole = rest@;
                rest = slice_subrange(rest, k + 1, rest.len());
                proof {
                    assert(rest@ =~= whole.skip(k as int + 1));
                }
            },
            None => {
                return rest;
            },
        }
    }
}

/// Two texts, one behind the other.
pub fn cat(a: &str, b: &str) -> (r: String)
    ensures
        r@ == a@ + b@,
{
    let mut t = chars_of(a);
    push_text(&mut t, b);
    string_of(t.as_slice())
}

/// Three texts, one behind the other.
pub fn cat3(a: &str, b: &str, c: &str) -> (r: String)
    ensures
        r@ == a@ + b@ + c@,
{
    let mut t = chars_of(a);
    push_text(&mut t, b);
    push_text(&mut t, c);
    string_of(t.as_slice())
}

/// Five texts, one behind the other.
pub fn cat5(a: &str, b: &str, c: &str, d: &str, e: &str) -> (r: String)
    ensures
        r@ == a@ + b@ + c@ + d@ + e@,
{
    let mut t = chars_of(a);
    push_text(&mut t, b);
    push_text(&mut t, c);
    push_text(&mut t, d);
    push_text(&mut t, e);
    string_of(t.as_slice())
}

/// A number in decimal notation.
pub fn number_text(n: u64) -> (r: String)
    ensures
        r@ == decimal(n as nat),
{
    let v = decimal_of(n);
    string_of(v.as_slice())
}

/// The characters of `s` as a string, in full.
pub fn text_from(s: &str) -> (r: String)
    ensures
        r@ == s@,
{
    let v = chars_of(s);
    string_of(v.as_slice())
}

/// How many bytes a character takes in UTF-8.
pub open spec fn char_bytes(c: char) -> nat {
    if (c as u32) < 0x80 {
        1
    } else if (c as u32) < 0x800 {
        2
    } else if (c as u32) < 0x10000 {
        3
    } else {
        4
    }
}

/// How many bytes a text takes in UTF-8.
pub open spec fn byte_len(s: Seq<char>) -> nat
    decreases s.len(),
{
    if s.len() == 0 {
        0
    } else {
        byte_len(s.drop_last()) + char_bytes(s.last())
    }
}

/// How many bytes a character takes in UTF-8.
pub fn bytes_of_char(c: char) -> (r: usize)
    ensures
        r == char_bytes(c),
        1 <= r <= 4,
{
    let n: u32 = c as u32;
    if n < 0x80 {
        1
    } else if n < 0x800 {
        2
    } else if n < 0x10000 {
        3
    } else {
        4
    }
}

/// The longest beginning of `s` that takes at most `n` bytes.
pub open spec fn fit(s: Seq<char>, n: nat) -> Seq<char>
    decreases s.len(),
{
    if s.len() == 0 || byte_len(s) <= n {
        s
    } else {
        fit(s.drop_last(), n)
    }
}

/// The longest end of `s` that takes at most `n` bytes.
pub open spec fn fit_end(s: Seq<char>, n: nat) -> Seq<char>
    decreases s.len(),
{
    if s.len() == 0 || byte_len(s) <= n {
        s
    } else {
        fit_end(s.skip(1), n)
    }
}

/// A longer beginning takes more bytes.
pub proof fn lemma_byte_len_take(s: Seq<char>, i: int, j: int)
    requires
        0 <= i <= j <= s.len(),
    ensures
        byte_len(s.take(i)) + (j - i) <= byte_len(s.take(j)),
    decreases j,
{
    if i < j {
        assert(s.take(j).drop_last() =~= s.take(j - 1));
        lemma_byte_len_take(s, i, j - 1);
    }
}

/// `fit` is found from the front.
pub proof fn lemma_fit(s: Seq<char>, n: nat, i: int)
    requires
        0 <= i <= s.len(),
        byte_len(s.take(i)) <= n,
        i < s.len() ==> byte_len(s.take(i + 1)) > n,
    ensures
        fit(s, n) == s.take(i),
    decreases s.len(),
{
    if i == s.len() {
        assert(s.take(i) =~= s);
    } else {
        assert(s.take(s.len() as int) =~= s);
        lemma_byte_len_take(s, i + 1, s.len() as int);
        let d = s.drop_last();
        assert(d.take(i) =~= s.take(i));
        if i < d.len() {
            assert(d.take(i + 1) =~= s.take(i + 1));
        }
        lemma_fit(d, n, i);
    }
}

/// Takes the longest beginning that fits into `n` bytes, and says whether
/// something was left out.
pub fn fitting(s: &[char], n: usize) -> (r: &[char])
    ensures
        r@ == fit(s@, n as nat),
{
    let mut used: usize = 0;
    let mut i: usize = 0;
    proof {
        assert(s@.take(0) =~= Seq::<char>::empty());
    }
    while i < s.len()
        invariant
            i <= s.len(),
            used <= n,
            used == byte_len(s@.take(i as int)),
        decreases s.len() - i,
    {
        let k = bytes_of_char(s[i]);
        proof {
            assert(s@.take(i as int + 1).drop_last() =~= s@.take(i as int));
            assert(s@.take(i as int + 1).last() == s@[i as int]);
        }
        if n - used < k {
            proof {
                lemma_fit(s@, n as nat, i as int);
                assert(s@.subrange(0, i as int) =~= s@.take(i as int));
            }
            return slice_subrange(s, 0, i);
        }
        used = used + k;
        i = i + 1;
    }
    proof {
        lemma_fit(s@, n as nat, i as int);
        assert(s@.take(i as int) =~= s@);
    }
    s
}

/// A text without its first character takes that much less.
pub proof fn lemma_byte_len_skip(s: Seq<char>)
    requires
        s.len() > 0,
    ensures
        byte_len(s) == char_bytes(s[0]) + byte_len(s.skip(1)),
    decreases s.len(),
{
    if s.len() > 1 {
        let d = s.drop_last();
        lemma_byte_len_skip(d);
        assert(d.skip(1) =~= s.skip(1).drop_last());
        assert(s.skip(1).last() == s.last());
    } else {
        assert(s.skip(1) =~= Seq::<char>::empty());
        assert(s.drop_last() =~= Seq::<char>::empty());
    }
}

/// `fit_end` is found from the back.
pub proof fn lemma_fit_end(s: Seq<char>, n: nat, i: int)
    requires
        0 <= i <= s.len(),
        byte_len(s.skip(i)) <= n,
        i > 0 ==> byte_len(s.skip(i - 1)) > n,
    ensures
        fit_end(s, n) == s.skip(i),
    decreases s.len(),
{
    if i == 0 {
        assert(s.skip(0) =~= s);
    } else {
        lemma_longer(s, i - 1);
        let d = s.skip(1);
        assert(d.skip(i - 1) =~= s.skip(i));
        if i > 1 {
            assert(d.skip(i - 2) =~= s.skip(i - 1));
        }
        lemma_fit_end(d, n, i - 1);
    }
}

proof fn lemma_longer(s: Seq<char>, i: int)
    requires
        0 <= i <= s.len(),
    ensures
        byte_len(s.skip(i)) <= byte_len(s),
    decreases i,
{
    if i == 0 {
        assert(s.skip(0) =~= s);
    } else {
        lemma_longer(s, i - 1);
        lemma_byte_len_skip(s.skip(i - 1));
        assert(s.skip(i - 1).skip(1) =~= s.skip(i));
    }
}

/// Takes the longest end that fits into `n` bytes.
pub fn fitting_end(s: &[char], n: usize) -> (r: &[char])
    ensures
        r@ == fit_end(s@, n as nat),
{
    let mut used: usize = 0;
    let mut i: usize = s.len();
    proof {
        assert(s@.skip(i as int) =~= Seq::<char>::empty());
    }
    while i > 0
        invariant
            i <= s.len(),
            used <= n,
            used == byte_len(s@.skip(i as int)),
        decreases i,
    {
        let k = bytes_of_char(s[i - 1]);
        proof {
            lemma_byte_len_skip(s@.skip(i as int - 1));
            assert(s@.skip(i as int - 1).skip(1) =~= s@.skip(i as int));
        }
        if n - used < k {
            proof {
                lemma_fit_end(s@, n as nat, i as int);
                assert(s@.subrange(i as int, s.len() as int) =~= s@.skip(i as int));
            }
            return slice_subrange(s, i, s.len());
        }
        used = used + k;
        i = i - 1;
    }
    proof {
        lemma_fit_end(s@, n as nat, 0);
        assert(s@.skip(0) =~= s@);
    }
    s
}

/// Whether a text takes more than `n` bytes.
pub fn longer_than(s: &[char], n: usize) -> (r: bool)
    ensures
        r == (byte_len(s@) > n),
{
    let k = fitting(s, n).len();
    proof {
        lemma_fit_short(s@, n as nat);
    }
    k < s.len()
}

proof fn lemma_fit_short(s: Seq<char>, n: nat)
    ensures
        fit(s, n).len() <= s.len(),
        (fit(s, n).len() < s.len()) == (byte_len(s) > n),
    decreases s.len(),
{
    if s.len() > 0 && byte_len(s) > n {
        lemma_fit_short(s.drop_last(), n);
    }
}

/// Every piece of a split text is free of the separator.
pub proof fn lemma_split_free(s: Seq<char>, c: char)
    ensures
        split(s, c).len() >= 1,
        forall|k: int| 0 <= k < split(s, c).len() ==> !(#[trigger] split(s, c)[k]).contains(c),
    decreases s.len(),
{
    lemma_find_from(s, c, 0);
    match find(s, c) {
        Some(k) => {
            lemma_split_free(s.skip(k + 1), c);
            let v = split(s, c);
            let rest = split(s.skip(k + 1), c);
            assert forall|j: int| 0 <= j < v.len() implies !(#[trigger] v[j]).contains(c) by {
                if j > 0 {
                    assert(v[j] == rest[j - 1]);
                }
            }
        },
        None => {},
    }
}

/// A text in front of a separator is the first piece.
pub proof fn lemma_split_front(a: Seq<char>, c: char, b: Seq<char>)
    requires
        !a.contains(c),
    ensures
        split(a.push(c) + b, c) == seq![a] + split(b, c),
{
    let s = a.push(c) + b;
    lemma_find_from(s, c, 0);
    assert(s[a.len() as int] == c);
    assert forall|j: int| 0 <= j < a.len() implies s[j] != c by {
        assert(s[j] == a[j]);
    }
    assert(find(s, c) == Some(a.len() as int));
    assert(s.take(a.len() as int) =~= a);
    assert(s.skip(a.len() as int + 1) =~= b);
}

/// Joining pieces that are free of the separator and splitting again gives the
/// pieces.
pub proof fn lemma_split_join(v: Seq<Seq<char>>, c: char)
    requires
        v.len() > 0,
        forall|k: int| 0 <= k < v.len() ==> !(#[trigger] v[k]).contains(c),
    ensures
        split(join(v, seq![c]), c) == v,
    decreases v.len(),
{
    if v.len() == 1 {
        lemma_find_from(v[0], c, 0);
        assert(split(v[0], c) =~= v);
    } else {
        lemma_join_front(v, seq![c]);
        let rest = v.skip(1);
        assert forall|k: int| 0 <= k < rest.len() implies !(#[trigger] rest[k]).contains(c) by {
            assert(rest[k] == v[k + 1]);
        }
        lemma_split_join(rest, c);
        lemma_split_front(v[0], c, join(rest, seq![c]));
        assert(join(v, seq![c]) =~= v[0].push(c) + join(rest, seq![c]));
        assert(seq![v[0]] + rest =~= v);
    }
}

/// `join` seen from the front.
pub proof fn lemma_join_front(v: Seq<Seq<char>>, sep: Seq<char>)
    requires
        v.len() > 1,
    ensures
        join(v, sep) == v[0] + sep + join(v.skip(1), sep),
    decreases v.len(),
{
    if v.len() == 2 {
        assert(v.drop_last().len() == 1);
        assert(v.skip(1).len() == 1);
        assert(v.skip(1)[0] == v[1]);
        assert(join(v.drop_last(), sep) == v[0]);
        assert(join(v.skip(1), sep) == v[1]);
        assert(v.last() == v[1]);
    } else {
        lemma_join_front(v.drop_last(), sep);
        assert(v.drop_last().skip(1) =~= v.skip(1).drop_last());
        assert(v.skip(1).last() == v.last());
        assert(join(v, sep) =~= v[0] + sep + join(v.skip(1), sep));
    }
}

/// Trimming takes away white space at the two ends, all of it and nothing else.
pub proof fn law_trim(s: Seq<char>)
    ensures
        exists|a: int, b: int|
            0 <= a <= b <= s.len() && trim(s) == #[trigger] s.subrange(a, b) && (forall|i: int|
                0 <= i < a || b <= i < s.len() ==> is_white(#[trigger] s[i])) && (a < b
                ==> !is_white(s[a]) && !is_white(s[b - 1])),
        trim(s).len() == 0 <==> forall|i: int| 0 <= i < s.len() ==> is_white(#[trigger] s[i]),
{
    let a = lemma_trim_start_cut(s);
    let t = s.skip(a);
    let n = lemma_trim_end_cut(t);
    let b = a + n;
    assert(t.take(n) =~= s.subrange(a, b));
    assert forall|i: int| b <= i < s.len() implies is_white(#[trigger] s[i]) by {
        assert(t[i - a] == s[i]);
    }
    if a < b {
        assert(t[0] == s[a]);
        assert(t[n - 1] == s[b - 1]);
        assert(!is_white(s[b - 1]));
    }
    assert(trim(s) == s.subrange(a, b));
}

proof fn lemma_trim_start_cut(s: Seq<char>) -> (a: int)
    ensures
        0 <= a <= s.len(),
        trim_start(s) == s.skip(a),
        forall|i: int| 0 <= i < a ==> is_white(#[trigger] s[i]),
        a < s.len() ==> !is_white(s[a]),
    decreases s.len(),
{
    if s.len() > 0 && is_white(s[0]) {
        let a = lemma_trim_start_cut(s.skip(1));
        assert(s.skip(1).skip(a) =~= s.skip(a + 1));
        assert forall|i: int| 0 <= i < a + 1 implies is_white(#[trigger] s[i]) by {
            if i > 0 {
                assert(s[i] == s.skip(1)[i - 1]);
            }
        }
        if a + 1 < s.len() {
            assert(s[a + 1] == s.skip(1)[a]);
        }
        a + 1
    } else {
        assert(s.skip(0) =~= s);
        0
    }
}

proof fn lemma_trim_end_cut(s: Seq<char>) -> (n: int)
    ensures
        0 <= n <= s.len(),
        trim_end(s) == s.take(n),
        forall|i: int| n <= i < s.len() ==> is_white(#[trigger] s[i]),
        n > 0 ==> !is_white(s[n - 1]),
    decreases s.len(),
{
    if s.len() > 0 && is_white(s.last()) {
        let n = lemma_trim_end_cut(s.drop_last());
        assert(s.drop_last().take(n) =~= s.take(n));
        assert forall|i: int| n <= i < s.len() implies is_white(#[trigger] s[i]) by {
            if i < s.len() - 1 {
                assert(s[i] == s.drop_last()[i]);
            }
        }
        n
    } else {
        assert(s.take(s.len() as int) =~= s);
        s.len() as int
    }
}

/// One more piece behind the others lengthens what they are together.
pub proof fn lemma_flatten_push<A>(v: Seq<Seq<A>>, t: Seq<A>)
    ensures
        v.push(t).flatten() == v.flatten() + t,
{
    v.push(t).lemma_flatten_and_flatten_alt_are_equivalent();
    v.lemma_flatten_and_flatten_alt_are_equivalent();
    assert(v.push(t).drop_last() =~= v);
}

/// The pieces of a split text hold no separator, and joined by it they are the
/// text again.
pub proof fn law_split_reads_back(s: Seq<char>, c: char)
    ensures
        split(s, c).len() >= 1,
        forall|k: int| 0 <= k < split(s, c).len() ==> !(#[trigger] split(s, c)[k]).contains(c),
        join(split(s, c), seq![c]) == s,
    decreases s.len(),
{
    lemma_split_free(s, c);
    lemma_find_from(s, c, 0);
    match find(s, c) {
        Some(k) => {
            let rest = s.skip(k + 1);
            law_split_reads_back(rest, c);
            let v = split(s, c);
            lemma_join_front(v, seq![c]);
            assert(v.skip(1) =~= split(rest, c));
            assert(s =~= s.take(k) + seq![c] + rest);
        },
        None => {},
    }
}

/// The words of a text hold no white space and are not empty, and put together
/// they are the text without its white space.
pub proof fn law_words_are_the_text(s: Seq<char>)
    ensures
        words(s).flatten() == s.filter(|c: char| !is_white(c)),
        forall|i: int| 0 <= i < words(s).len() ==> (#[trigger] words(s)[i]).len() > 0,
        forall|i: int, j: int|
            0 <= i < words(s).len() && 0 <= j < words(s)[i].len() ==> !is_white(
                #[trigger] words(s)[i][j],
            ),
    decreases s.len(),
{
    let solid = |c: char| !is_white(c);
    let a = lemma_trim_start_cut(s);
    let t = trim_start(s);
    lemma_filter_none(s.take(a));
    lemma_filter_joins(s.take(a), t);
    assert(s =~= s.take(a) + t);
    assert(Seq::<char>::empty() + t.filter(solid) =~= t.filter(solid));
    if t.len() == 0 {
        assert(t =~= Seq::<char>::empty());
        reveal(Seq::filter);
        assert(words(s) =~= Seq::<Seq<char>>::empty());
    } else {
        lemma_word_len(t);
        let n = word_len(t);
        let rest = t.skip(n);
        law_words_are_the_text(rest);
        let w = words(s);
        let first = t.take(n);
        assert(w =~= seq![first] + words(rest));
        assert(w.first() == first);
        assert(w.drop_first() =~= words(rest));
        lemma_filter_all_solid(first);
        lemma_filter_joins(first, rest);
        assert(t =~= first + rest);
        assert forall|i: int| 0 <= i < w.len() implies (#[trigger] w[i]).len() > 0 by {
            if i > 0 {
                assert(w[i] == words(rest)[i - 1]);
            }
        }
        assert forall|i: int, j: int| 0 <= i < w.len() && 0 <= j < w[i].len() implies !is_white(
            #[trigger] w[i][j],
        ) by {
            if i > 0 {
                assert(w[i] == words(rest)[i - 1]);
                assert(!is_white(words(rest)[i - 1][j]));
            } else {
                assert(w[0][j] == t[j]);
            }
        }
    }
}

proof fn lemma_filter_none(s: Seq<char>)
    requires
        forall|i: int| 0 <= i < s.len() ==> is_white(#[trigger] s[i]),
    ensures
        s.filter(|c: char| !is_white(c)) == Seq::<char>::empty(),
    decreases s.len(),
{
    reveal(Seq::filter);
    if s.len() > 0 {
        assert forall|i: int| 0 <= i < s.drop_last().len() implies is_white(
            #[trigger] s.drop_last()[i],
        ) by {
            assert(s.drop_last()[i] == s[i]);
        }
        lemma_filter_none(s.drop_last());
        assert(is_white(s[s.len() - 1]));
    }
}

proof fn lemma_filter_all_solid(s: Seq<char>)
    requires
        forall|i: int| 0 <= i < s.len() ==> !is_white(#[trigger] s[i]),
    ensures
        s.filter(|c: char| !is_white(c)) == s,
    decreases s.len(),
{
    reveal(Seq::filter);
    if s.len() > 0 {
        assert forall|i: int| 0 <= i < s.drop_last().len() implies !is_white(
            #[trigger] s.drop_last()[i],
        ) by {
            assert(s.drop_last()[i] == s[i]);
        }
        lemma_filter_all_solid(s.drop_last());
        assert(!is_white(s[s.len() - 1]));
        assert(s.drop_last().push(s.last()) =~= s);
    }
}

proof fn lemma_filter_joins(a: Seq<char>, b: Seq<char>)
    ensures
        (a + b).filter(|c: char| !is_white(c)) == a.filter(|c: char| !is_white(c)) + b.filter(
            |c: char| !is_white(c),
        ),
    decreases b.len(),
{
    let solid = |c: char| !is_white(c);
    reveal(Seq::filter);
    if b.len() == 0 {
        assert(a + b =~= a);
        assert(a.filter(solid) + b.filter(solid) =~= a.filter(solid));
    } else {
        lemma_filter_joins(a, b.drop_last());
        assert((a + b).drop_last() =~= a + b.drop_last());
        assert((a + b).last() == b.last());
        assert((a + b).filter(solid) =~= a.filter(solid) + b.filter(solid));
    }
}

/// The characters of a text that are no white space.
pub open spec fn solid(s: Seq<char>) -> Seq<char> {
    s.filter(|c: char| !is_white(c))
}

/// All characters of some texts that are no white space.
pub open spec fn all_solid(v: Seq<Seq<char>>) -> Seq<char> {
    v.map_values(|t: Seq<char>| solid(t)).flatten()
}

/// One more text adds its own characters.
pub proof fn lemma_all_solid_push(v: Seq<Seq<char>>, t: Seq<char>)
    ensures
        all_solid(v.push(t)) == all_solid(v) + solid(t),
{
    let f = |t: Seq<char>| solid(t);
    assert(v.push(t).map_values(f) =~= v.map_values(f).push(solid(t)));
    lemma_flatten_push(v.map_values(f), solid(t));
}

/// No texts have no characters.
pub proof fn lemma_all_solid_none()
    ensures
        all_solid(Seq::<Seq<char>>::empty()) == Seq::<char>::empty(),
{
    let f = |t: Seq<char>| solid(t);
    assert(Seq::<Seq<char>>::empty().map_values(f) =~= Seq::<Seq<char>>::empty());
}

/// The characters of two texts in a row are those of the one and then those of
/// the other.
pub proof fn lemma_solid_joins(a: Seq<char>, b: Seq<char>)
    ensures
        solid(a + b) == solid(a) + solid(b),
{
    lemma_filter_joins(a, b);
}

/// White space has no other characters.
pub proof fn lemma_solid_white(s: Seq<char>)
    requires
        forall|i: int| 0 <= i < s.len() ==> is_white(#[trigger] s[i]),
    ensures
        solid(s) == Seq::<char>::empty(),
{
    lemma_filter_none(s);
}

/// Joining texts by white space keeps every other character, in order.
pub proof fn law_join_keeps_the_characters(v: Seq<Seq<char>>, sep: Seq<char>)
    requires
        forall|i: int| 0 <= i < sep.len() ==> is_white(#[trigger] sep[i]),
    ensures
        solid(join(v, sep)) == all_solid(v),
    decreases v.len(),
{
    lemma_solid_white(sep);
    if v.len() == 0 {
        lemma_all_solid_none();
        lemma_solid_white(Seq::<char>::empty());
        assert(v =~= Seq::<Seq<char>>::empty());
    } else {
        let front = v.drop_last();
        law_join_keeps_the_characters(front, sep);
        lemma_all_solid_push(front, v.last());
        assert(front.push(v.last()) =~= v);
        if v.len() == 1 {
            assert(front =~= Seq::<Seq<char>>::empty());
            lemma_all_solid_none();
            assert(v[0] == v.last());
            assert(Seq::<char>::empty() + solid(v.last()) =~= solid(v.last()));
        } else {
            lemma_solid_joins(join(front, sep) + sep, v.last());
            lemma_solid_joins(join(front, sep), sep);
            assert(solid(join(front, sep)) + Seq::<char>::empty() =~= solid(join(front, sep)));
        }
    }
}

/// The lines of a text have every character of it that is no white space, in
/// order.
pub proof fn law_lines_keep_the_characters(s: Seq<char>)
    ensures
        all_solid(lines(s)) == solid(s),
    decreases s.len(),
{
    let f = |t: Seq<char>| solid(t);
    if s.len() == 0 {
        lemma_all_solid_none();
        lemma_solid_white(s);
    } else {
        lemma_find_from(s, '\n', 0);
        match find(s, '\n') {
            Some(k) => {
                let head = s.take(k);
                let first = strip_cr(head);
                let rest = s.skip(k + 1);
                law_lines_keep_the_characters(rest);
                let v = lines(s);
                assert(v =~= seq![first] + lines(rest));
                assert(v.map_values(f).first() == solid(first));
                assert(v.map_values(f).drop_first() =~= lines(rest).map_values(f));
                lemma_solid_white(seq!['\n']);
                lemma_solid_joins(head + seq!['\n'], rest);
                lemma_solid_joins(head, seq!['\n']);
                assert(s =~= head + seq!['\n'] + rest);
                assert(solid(head) + Seq::<char>::empty() =~= solid(head));
                if head.len() > 0 && head.last() == '\r' {
                    lemma_solid_white(seq!['\r']);
                    lemma_solid_joins(head.drop_last(), seq!['\r']);
                    assert(head =~= head.drop_last() + seq!['\r']);
                    assert(solid(first) + Seq::<char>::empty() =~= solid(first));
                }
            },
            None => {
                let v = seq![s];
                assert(v =~= Seq::<Seq<char>>::empty().push(s));
                lemma_all_solid_push(Seq::empty(), s);
                lemma_all_solid_none();
                assert(Seq::<char>::empty() + solid(s) =~= solid(s));
            },
        }
    }
}

/// A text with one blank between its words has the characters that it had.
pub proof fn law_tidy_words_keep_the_characters(s: Seq<char>)
    ensures
        solid(join(words(s), seq![' '])) == solid(s),
{
    law_words_are_the_text(s);
    law_join_keeps_the_characters(words(s), seq![' ']);
    let f = |t: Seq<char>| solid(t);
    let w = words(s);
    assert forall|i: int| 0 <= i < w.len() implies solid(#[trigger] w[i]) == w[i] by {
        assert forall|j: int| 0 <= j < w[i].len() implies !is_white(#[trigger] w[i][j]) by {
            assert(!is_white(words(s)[i][j]));
        }
        lemma_filter_all_solid(w[i]);
    }
    assert(w.map_values(f) =~= w);
}

/// A number that is written in decimal is read back, is all digits, and does
/// not begin with a zero unless it is zero.
pub proof fn law_decimal_reads_back(n: nat, max: nat)
    requires
        n <= max,
    ensures
        parse_number(decimal(n), max) == Some(n),
        all_digits(decimal(n)),
        n > 0 ==> decimal(n)[0] != '0',
{
    lemma_decimal_value(n);
    assert(decimal(n)[0] != '+');
}

proof fn lemma_decimal_value(n: nat)
    ensures
        all_digits(decimal(n)),
        digits_value(decimal(n)) == n,
        n > 0 ==> decimal(n)[0] != '0',
    decreases n,
{
    reveal_with_fuel(digits_value, 2);
    if n < 10 {
        let s = decimal(n);
        assert(s.drop_last() =~= Seq::<char>::empty());
        assert(s[0] == digit_char(n));
    } else {
        lemma_decimal_value(n / 10);
        let front = decimal(n / 10);
        let s = decimal(n);
        assert(s.drop_last() =~= front);
        assert(s.last() == digit_char(n % 10));
        assert(s[0] == front[0]);
        assert forall|i: int| 0 <= i < s.len() implies is_digit(#[trigger] s[i]) by {
            if i < front.len() {
                assert(s[i] == front[i]);
            }
        }
    }
}

} // verus!
