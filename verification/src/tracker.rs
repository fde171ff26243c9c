//! What files were like before a session, and before a turn, changed them.
//!
//! The bytes of a file are kept before its first change, so that the change
//! can be shown and undone exactly, whatever the file's encoding. On disk they
//! are kept as text: UTF-8 as it is, anything else in hexadecimal digits.

use crate::chars::{
    begins, chars_of, opt_text, push_text, starts_with, str_eq, string_of, text_from, texts,
};
use crate::diff::{change_of, file_change};
use crate::lossy::utf8_of;
use crate::order::{lemma_text_le_total, lemma_text_le_trans, text_before, text_le};
use crate::paths::{relative_path, shown_path};
use crate::protocol::{edit_diffs_say, EditDiff, EditDiffV};
use crate::text::{decoded_view, view_of};
use vstd::prelude::*;
use vstd::utf8::{decode_utf8, encode_utf8, valid_utf8};

verus! {

/// What marks bytes that are kept in hexadecimal digits.
pub const SNAPSHOT_HEX_PREFIX: &'static str = "pigcode:hex:";

// ---------------------------------------------------------------------------
// Bytes as text
// ---------------------------------------------------------------------------

/// The hexadecimal digit of a number below sixteen.
pub open spec fn hex_digit(n: int) -> char {
    if n < 10 {
        ('0' as u32 + n) as char
    } else {
        ('a' as u32 + n - 10) as char
    }
}

/// The number of a hexadecimal digit.
pub open spec fn hex_value(c: char) -> Option<int> {
    if '0' <= c && c <= '9' {
        Some(c as u32 - '0' as u32)
    } else if 'a' <= c && c <= 'f' {
        Some(c as u32 - 'a' as u32 + 10)
    } else if 'A' <= c && c <= 'F' {
        Some(c as u32 - 'A' as u32 + 10)
    } else {
        None
    }
}

/// Two hexadecimal digits for each byte.
pub open spec fn hex(b: Seq<u8>) -> Seq<char>
    decreases b.len(),
{
    if b.len() == 0 {
        Seq::empty()
    } else {
        seq![hex_digit(b[0] as int / 16), hex_digit(b[0] as int % 16)] + hex(b.skip(1))
    }
}

/// The bytes that pairs of hexadecimal digits write, up to the first pair that
/// is none.
pub open spec fn unhex(s: Seq<char>) -> Seq<u8>
    decreases s.len(),
{
    if s.len() < 2 {
        Seq::empty()
    } else {
        match (hex_value(s[0]), hex_value(s[1])) {
            (Some(h), Some(l)) => seq![(16 * h + l) as u8] + unhex(s.skip(2)),
            _ => Seq::empty(),
        }
    }
}

/// Bytes as they are kept.
pub open spec fn stored(b: Seq<u8>) -> Seq<char> {
    if valid_utf8(b) {
        decode_utf8(b)
    } else {
        SNAPSHOT_HEX_PREFIX@ + hex(b)
    }
}

/// The bytes that are kept as a text.
pub open spec fn unstored(s: Seq<char>) -> Seq<u8> {
    if starts_with(s, SNAPSHOT_HEX_PREFIX@) {
        unhex(s.skip(SNAPSHOT_HEX_PREFIX@.len() as int))
    } else {
        encode_utf8(s)
    }
}

fn digit_of(n: u8) -> (r: char)
    requires
        n < 16,
    ensures
        r == hex_digit(n as int),
{
    match n {
        0 => '0',
        1 => '1',
        2 => '2',
        3 => '3',
        4 => '4',
        5 => '5',
        6 => '6',
        7 => '7',
        8 => '8',
        9 => '9',
        10 => 'a',
        11 => 'b',
        12 => 'c',
        13 => 'd',
        14 => 'e',
        _ => 'f',
    }
}

fn value_of(c: char) -> (r: Option<u8>)
    ensures
        match r {
            Some(n) => hex_value(c) == Some(n as int) && n < 16,
            None => hex_value(c) is None,
        },
{
    if '0' <= c && c <= '9' {
        Some((c as u32 - '0' as u32) as u8)
    } else if 'a' <= c && c <= 'f' {
        Some((c as u32 - 'a' as u32 + 10) as u8)
    } else if 'A' <= c && c <= 'F' {
        Some((c as u32 - 'A' as u32 + 10) as u8)
    } else {
        None
    }
}

/// Writes bytes as they are kept.
pub fn snapshot_to_store(bytes: &[u8]) -> (r: String)
    ensures
        r@ == stored(bytes@),
{
    match utf8_of(bytes) {
        Some(s) => s,
        None => {
            let mut out = chars_of(SNAPSHOT_HEX_PREFIX);
            proof {
                assert(bytes@.skip(0) =~= bytes@);
            }
            for i in 0..bytes.len()
                invariant
                    out@ + hex(bytes@.skip(i as int)) == SNAPSHOT_HEX_PREFIX@ + hex(bytes@),
            {
                let b = bytes[i];
                let ghost before = out@;
                let ghost rest = bytes@.skip(i as int);
                out.push(digit_of(b / 16));
                out.push(digit_of(b % 16));
                proof {
                    assert(rest[0] == b);
                    assert(rest.skip(1) =~= bytes@.skip(i as int + 1));
                    assert(out@ + hex(bytes@.skip(i as int + 1)) =~= before + hex(rest));
                }
            }
            proof {
                assert(bytes@.skip(bytes@.len() as int) =~= Seq::<u8>::empty());
                assert(out@ + Seq::<char>::empty() =~= out@);
            }
            string_of(out.as_slice())
        },
    }
}

/// Reads bytes as they are kept.
pub fn snapshot_from_store(s: &str) -> (r: Vec<u8>)
    ensures
        r@ == unstored(s@),
{
    let v = chars_of(s);
    if !begins(v.as_slice(), SNAPSHOT_HEX_PREFIX) {
        let b = s.as_bytes();
        let mut out: Vec<u8> = Vec::new();
        for i in 0..b.len()
            invariant
                out@ =~= b@.take(i as int),
        {
            out.push(b[i]);
        }
        proof {
            assert(b@.take(b@.len() as int) =~= b@);
        }
        return out;
    }
    proof {
        reveal_strlit("pigcode:hex:");
        assert(SNAPSHOT_HEX_PREFIX@.len() == 12);
    }
    let mut out: Vec<u8> = Vec::new();
    let mut i: usize = 12;
    let n: usize = v.len();
    let ghost want = unhex(v@.skip(12));
    proof {
        assert(out@ + want =~= want);
    }
    while i < n && n - i >= 2
        invariant
            i <= n,
            n == v@.len(),
            want == unstored(s@),
            out@ + unhex(v@.skip(i as int)) == want,
        decreases n - i,
    {
        let ghost rest = v@.skip(i as int);
        proof {
            assert(rest[0] == v@[i as int]);
            assert(rest[1] == v@[i as int + 1]);
        }
        match (value_of(v[i]), value_of(v[i + 1])) {
            (Some(h), Some(l)) => {
                let ghost before = out@;
                out.push(16 * h + l);
                i = i + 2;
                proof {
                    assert(rest.skip(2) =~= v@.skip(i as int));
                    assert(out@ + unhex(v@.skip(i as int)) =~= before + unhex(rest));
                }
            },
            _ => {
                proof {
                    assert(out@ + Seq::<u8>::empty() =~= out@);
                }
                return out;
            },
        }
    }
    proof {
        assert(out@ + Seq::<u8>::empty() =~= out@);
    }
    out
}

// ---------------------------------------------------------------------------
// Lists of entries
// ---------------------------------------------------------------------------

/// The entry of a key at or after `i`.
pub open spec fn entry_from<T>(v: Seq<(Seq<char>, T)>, key: Seq<char>, i: int) -> Option<T>
    decreases v.len() - i,
{
    if i < 0 || i >= v.len() {
        None
    } else if v[i].0 == key {
        Some(v[i].1)
    } else {
        entry_from(v, key, i + 1)
    }
}

/// The entry of a key.
pub open spec fn entry<T>(v: Seq<(Seq<char>, T)>, key: Seq<char>) -> Option<T> {
    entry_from(v, key, 0)
}

/// Whether no key occurs twice.
pub open spec fn keys_apart<T>(v: Seq<(Seq<char>, T)>) -> bool {
    forall|i: int, j: int| 0 <= i < j < v.len() ==> (#[trigger] v[i]).0 != (#[trigger] v[j]).0
}

/// The place of a key at or after `i`; behind the end where it is not there.
pub open spec fn slot_from<T>(v: Seq<(Seq<char>, T)>, key: Seq<char>, i: int) -> int
    decreases v.len() - i,
{
    if i < 0 || i >= v.len() {
        v.len() as int
    } else if v[i].0 == key {
        i
    } else {
        slot_from(v, key, i + 1)
    }
}

/// The list with an entry in place of the one of its key, or at the end.
pub open spec fn with_entry<T>(v: Seq<(Seq<char>, T)>, key: Seq<char>, x: T) -> Seq<
    (Seq<char>, T),
> {
    let k = slot_from(v, key, 0);
    if k < v.len() {
        v.update(k, (key, x))
    } else {
        v.push((key, x))
    }
}

/// The list without the entry of a key.
pub open spec fn without_entry<T>(v: Seq<(Seq<char>, T)>, key: Seq<char>) -> Seq<(Seq<char>, T)> {
    let k = slot_from(v, key, 0);
    if k < v.len() {
        v.remove(k)
    } else {
        v
    }
}

proof fn lemma_slot<T>(v: Seq<(Seq<char>, T)>, key: Seq<char>, i: int)
    requires
        0 <= i <= v.len(),
    ensures
        i <= slot_from(v, key, i) <= v.len(),
        slot_from(v, key, i) < v.len() ==> v[slot_from(v, key, i)].0 == key && entry_from(
            v,
            key,
            i,
        ) == Some(v[slot_from(v, key, i)].1),
        slot_from(v, key, i) == v.len() ==> entry_from(v, key, i) is None,
        forall|j: int| i <= j < slot_from(v, key, i) ==> (#[trigger] v[j]).0 != key,
    decreases v.len() - i,
{
    if i < v.len() && v[i].0 != key {
        lemma_slot(v, key, i + 1);
    }
}

/// What a list of kept bytes says.
pub open spec fn kept_say(v: Seq<(String, Option<Vec<u8>>)>) -> Seq<(Seq<char>, Option<Seq<u8>>)> {
    v.map_values(|p: (String, Option<Vec<u8>>)| (p.0@, bytes_in(p.1)))
}

/// What optional bytes say.
pub open spec fn bytes_in(b: Option<Vec<u8>>) -> Option<Seq<u8>> {
    match b {
        Some(v) => Some(v@),
        None => None,
    }
}

/// What a list of counts says.
pub open spec fn stats_say(v: Seq<(String, (u32, u32))>) -> Seq<(Seq<char>, (u32, u32))> {
    v.map_values(|p: (String, (u32, u32))| (p.0@, p.1))
}

fn kept_at(v: &Vec<(String, Option<Vec<u8>>)>, key: &str) -> (r: Option<usize>)
    ensures
        match r {
            Some(k) => k < v@.len() && slot_from(kept_say(v@), key@, 0) == k && entry(
                kept_say(v@),
                key@,
            ) == Some(bytes_in(v@[k as int].1)),
            None => slot_from(kept_say(v@), key@, 0) == v@.len() && entry(
                kept_say(v@),
                key@,
            ) is None,
        },
{
    let ghost all = kept_say(v@);
    let mut i: usize = 0;
    while i < v.len()
        invariant
            all == kept_say(v@),
            i <= v@.len(),
            slot_from(all, key@, 0) == slot_from(all, key@, i as int),
            entry(all, key@) == entry_from(all, key@, i as int),
        decreases v@.len() - i,
    {
        if str_eq(v[i].0.as_str(), key) {
            return Some(i);
        }
        i = i + 1;
    }
    None
}

fn stat_at(v: &Vec<(String, (u32, u32))>, key: &str) -> (r: Option<usize>)
    ensures
        match r {
            Some(k) => k < v@.len() && slot_from(stats_say(v@), key@, 0) == k,
            None => slot_from(stats_say(v@), key@, 0) == v@.len(),
        },
{
    let ghost all = stats_say(v@);
    let mut i: usize = 0;
    while i < v.len()
        invariant
            all == stats_say(v@),
            i <= v@.len(),
            slot_from(all, key@, 0) == slot_from(all, key@, i as int),
        decreases v@.len() - i,
    {
        if str_eq(v[i].0.as_str(), key) {
            return Some(i);
        }
        i = i + 1;
    }
    None
}

fn copied_bytes(b: &Option<Vec<u8>>) -> (r: Option<Vec<u8>>)
    ensures
        bytes_in(r) == bytes_in(*b),
{
    match b {
        Some(v) => {
            let mut out: Vec<u8> = Vec::new();
            for i in 0..v.len()
                invariant
                    out@ =~= v@.take(i as int),
            {
                out.push(v[i]);
            }
            proof {
                assert(v@.take(v@.len() as int) =~= v@);
            }
            Some(out)
        },
        None => None,
    }
}

// ---------------------------------------------------------------------------
// The tracker
// ---------------------------------------------------------------------------

/// Keeps what files were like. The entry `None` stands for a file that did not
/// exist.
#[derive(Debug)]
pub struct ChangeTracker {
    originals: Vec<(String, Option<Vec<u8>>)>,
    stats: Vec<(String, (u32, u32))>,
    dirty: Vec<String>,
    turn_originals: Vec<(String, Option<Vec<u8>>)>,
}

/// What a `ChangeTracker` says.
#[verifier::ext_equal]
pub struct TrackerV {
    /// What files were like before the session.
    pub originals: Seq<(Seq<char>, Option<Seq<u8>>)>,
    /// How many lines were added to and taken from files.
    pub stats: Seq<(Seq<char>, (u32, u32))>,
    /// The files whose entry is not on disk yet.
    pub dirty: Seq<Seq<char>>,
    /// What files were like before the turn.
    pub turn_originals: Seq<(Seq<char>, Option<Seq<u8>>)>,
}

impl View for ChangeTracker {
    type V = TrackerV;

    closed spec fn view(&self) -> TrackerV {
        TrackerV {
            originals: kept_say(self.originals@),
            stats: stats_say(self.stats@),
            dirty: texts(self.dirty@),
            turn_originals: kept_say(self.turn_originals@),
        }
    }
}

impl TrackerV {
    /// No file has two entries.
    pub open spec fn wf(self) -> bool {
        keys_apart(self.originals) && keys_apart(self.stats) && keys_apart(self.turn_originals)
    }
}

/// The tracker before a file is changed. `bytes` is what the file holds now;
/// it counts only where nothing is kept of the file yet.
pub open spec fn snapshotted(t: TrackerV, path: Seq<char>, bytes: Option<Seq<u8>>) -> TrackerV {
    let first = entry(t.originals, path) is None;
    TrackerV {
        originals: if first {
            t.originals.push((path, bytes))
        } else {
            t.originals
        },
        dirty: if first {
            t.dirty.push(path)
        } else {
            t.dirty
        },
        turn_originals: if entry(t.turn_originals, path) is None {
            t.turn_originals.push((path, bytes))
        } else {
            t.turn_originals
        },
        ..t
    }
}

/// Whether the file has to be read before it is changed.
pub open spec fn wants_bytes(t: TrackerV, path: Seq<char>) -> bool {
    entry(t.originals, path) is None || entry(t.turn_originals, path) is None
}

/// The originals with the entries that were kept on disk.
pub open spec fn with_restored(
    v: Seq<(Seq<char>, Option<Seq<u8>>)>,
    entries: Seq<(Seq<char>, Option<Seq<char>>)>,
) -> Seq<(Seq<char>, Option<Seq<u8>>)>
    decreases entries.len(),
{
    if entries.len() == 0 {
        v
    } else {
        with_entry(
            with_restored(v, entries.drop_last()),
            entries.last().0,
            match entries.last().1 {
                Some(s) => Some(unstored(s)),
                None => None,
            },
        )
    }
}

/// The text of bytes that may be missing.
pub open spec fn text_before_change(b: Option<Seq<u8>>) -> Seq<char> {
    match b {
        Some(x) => view_of(x),
        None => view_of(Seq::empty()),
    }
}

/// What a list of kept texts says.
pub open spec fn rows_say(v: Seq<(String, Option<String>)>) -> Seq<
    (Seq<char>, Option<Seq<char>>),
> {
    v.map_values(|p: (String, Option<String>)| (p.0@, opt_text(p.1)))
}

/// The changes of a turn: for each file from before the turn to now. `now` is
/// what the files hold now, in the order of the list; a file that cannot be
/// read is left out, and so is one without an added or deleted line.
pub open spec fn turn_changes(
    v: Seq<(Seq<char>, Option<Seq<u8>>)>,
    now: Seq<Option<Seq<u8>>>,
    root: Seq<char>,
    cwd: Seq<char>,
) -> Seq<EditDiffV>
    decreases v.len(),
{
    if v.len() == 0 || v.len() != now.len() {
        Seq::empty()
    } else {
        let before = turn_changes(v.drop_last(), now.drop_last(), root, cwd);
        match now.last() {
            None => before,
            Some(b) => {
                let c = change_of(
                    shown_path(v.last().0, root, cwd),
                    text_before_change(v.last().1),
                    view_of(b),
                );
                if c.additions == 0 && c.deletions == 0 {
                    before
                } else {
                    before.push(c)
                }
            },
        }
    }
}

/// The place of a path in a list of changes: behind every path that does not
/// come after it.
pub open spec fn place_of(v: Seq<EditDiffV>, path: Seq<char>) -> int
    decreases v.len(),
{
    if v.len() == 0 || text_le(v.last().path, path) {
        v.len() as int
    } else {
        place_of(v.drop_last(), path)
    }
}

/// Changes in the order of their paths.
pub open spec fn by_path(v: Seq<EditDiffV>) -> Seq<EditDiffV>
    decreases v.len(),
{
    if v.len() == 0 {
        v
    } else {
        let head = by_path(v.drop_last());
        head.insert(place_of(head, v.last().path), v.last())
    }
}

/// What a list of optional bytes says.
pub open spec fn all_bytes(v: Seq<Option<Vec<u8>>>) -> Seq<Option<Seq<u8>>> {
    v.map_values(|b: Option<Vec<u8>>| bytes_in(b))
}

/// The sum of the counts.
pub open spec fn sums(v: Seq<(Seq<char>, (u32, u32))>) -> (nat, nat)
    decreases v.len(),
{
    if v.len() == 0 {
        (0, 0)
    } else {
        let (a, d) = sums(v.drop_last());
        (a + v.last().1.0 as nat, d + v.last().1.1 as nat)
    }
}

/// The first part of each entry.
pub open spec fn keys_of(v: Seq<(Seq<char>, Option<Seq<u8>>)>) -> Seq<Seq<char>> {
    v.map_values(|p: (Seq<char>, Option<Seq<u8>>)| p.0)
}

fn read_failure(path: &str, e: &str) -> (r: String)
    ensures
        r@ == "读取失败 "@ + path@ + ": "@ + e@,
{
    let mut out = chars_of("读取失败 ");
    push_text(&mut out, path);
    push_text(&mut out, ": ");
    push_text(&mut out, e);
    string_of(out.as_slice())
}

fn list_keys(v: &Vec<(String, Option<Vec<u8>>)>) -> (r: Vec<String>)
    ensures
        texts(r@) == keys_of(kept_say(v@)),
{
    let ghost want = keys_of(kept_say(v@));
    let mut out: Vec<String> = Vec::new();
    proof {
        assert(texts(out@) =~= want.take(0));
    }
    for i in 0..v.len()
        invariant
            want == keys_of(kept_say(v@)),
            texts(out@) == want.take(i as int),
    {
        let ghost before = texts(out@);
        out.push(v[i].0.clone());
        proof {
            assert(texts(out@) =~= before.push(v@[i as int].0@));
            assert(want.take(i as int + 1) =~= want.take(i as int).push(want[i as int]));
        }
    }
    proof {
        assert(want.take(v@.len() as int) =~= want);
    }
    out
}

fn view_before(b: &Option<Vec<u8>>) -> (r: String)
    ensures
        r@ == text_before_change(bytes_in(*b)),
{
    match b {
        Some(v) => decoded_view(v.as_slice()),
        None => {
            let none: Vec<u8> = Vec::new();
            let r = decoded_view(none.as_slice());
            proof {
                assert(none@ =~= Seq::<u8>::empty());
            }
            r
        },
    }
}

fn put_by_path(v: &mut Vec<EditDiff>, c: EditDiff)
    ensures
        edit_diffs_say(final(v)@) == edit_diffs_say(old(v)@).insert(
            place_of(edit_diffs_say(old(v)@), c@.path),
            c@,
        ),
{
    let ghost all = edit_diffs_say(v@);
    let ghost cv = c@;
    let path = chars_of(c.path.as_str());
    let mut k: usize = v.len();
    proof {
        assert(all.take(k as int) =~= all);
    }
    while k > 0
        invariant
            all == edit_diffs_say(v@),
            path@ == cv.path,
            c@ == cv,
            v@ == old(v)@,
            k <= v@.len(),
            place_of(all, cv.path) == place_of(all.take(k as int), cv.path),
        decreases k,
    {
        let other = chars_of(v[k - 1].path.as_str());
        proof {
            assert(all.take(k as int).drop_last() =~= all.take(k as int - 1));
            assert(all.take(k as int).last() == v@[k as int - 1]@);
        }
        if text_before(other.as_slice(), path.as_slice()) {
            v.insert(k, c);
            proof {
                assert(edit_diffs_say(v@) =~= all.insert(k as int, cv));
            }
            return;
        }
        k = k - 1;
    }
    v.insert(0, c);
    proof {
        assert(edit_diffs_say(v@) =~= all.insert(0, cv));
    }
}

impl ChangeTracker {
    /// A tracker that keeps nothing.
    pub fn new() -> (r: Self)
        ensures
            r@ == (TrackerV {
                originals: Seq::empty(),
                stats: Seq::empty(),
                dirty: Seq::empty(),
                turn_originals: Seq::empty(),
            }),
            r@.wf(),
    {
        let r = ChangeTracker {
            originals: Vec::new(),
            stats: Vec::new(),
            dirty: Vec::new(),
            turn_originals: Vec::new(),
        };
        proof {
            assert(r@.originals =~= Seq::<(Seq<char>, Option<Seq<u8>>)>::empty());
            assert(r@.stats =~= Seq::<(Seq<char>, (u32, u32))>::empty());
            assert(r@.dirty =~= Seq::<Seq<char>>::empty());
            assert(r@.turn_originals =~= Seq::<(Seq<char>, Option<Seq<u8>>)>::empty());
        }
        r
    }

    /// Whether a file has to be read before it is changed.
    pub fn wants(&self, path: &str) -> (r: bool)
        ensures
            r == wants_bytes(self@, path@),
    {
        kept_at(&self.originals, path).is_none() || kept_at(&self.turn_originals, path).is_none()
    }

    /// Keeps what a file holds before it is changed. `read` is what reading it
    /// gave: its bytes, nothing where it does not exist, or the error. It
    /// counts only where the file has to be read.
    pub fn snapshot(&mut self, path: &str, read: Result<Option<Vec<u8>>, String>) -> (r: Result<
        (),
        String,
    >)
        requires
            old(self)@.wf(),
        ensures
            final(self)@.wf(),
            match read {
                Ok(b) => r is Ok && final(self)@ == snapshotted(old(self)@, path@, bytes_in(b)),
                Err(e) => if wants_bytes(old(self)@, path@) {
                    r is Err && r->Err_0@ == "读取失败 "@ + path@ + ": "@ + e@ && final(self)@
                        == old(self)@
                } else {
                    r is Ok && final(self)@ == old(self)@
                },
            },
    {
        let ghost before = self@;
        let first = kept_at(&self.originals, path).is_none();
        let first_in_turn = kept_at(&self.turn_originals, path).is_none();
        if !first && !first_in_turn {
            return Ok(());
        }
        let bytes = match read {
            Ok(b) => b,
            Err(e) => return Err(read_failure(path, e.as_str())),
        };
        proof {
            lemma_slot(before.originals, path@, 0);
            lemma_slot(before.turn_originals, path@, 0);
        }
        if first {
            self.originals.push((text_from(path), copied_bytes(&bytes)));
            self.dirty.push(text_from(path));
            proof {
                assert(kept_say(self.originals@) =~= before.originals.push(
                    (path@, bytes_in(bytes)),
                ));
                assert(texts(self.dirty@) =~= before.dirty.push(path@));
            }
        }
        if first_in_turn {
            let ghost bv = bytes_in(bytes);
            self.turn_originals.push((text_from(path), bytes));
            proof {
                assert(kept_say(self.turn_originals@) =~= before.turn_originals.push((path@, bv)));
            }
        }
        Ok(())
    }

    /// Takes the names of the files whose entry is not on disk yet.
    pub fn take_dirty(&mut self) -> (r: Vec<String>)
        ensures
            texts(r@) == old(self)@.dirty,
            final(self)@ == (TrackerV { dirty: Seq::empty(), ..old(self)@ }),
    {
        let ghost before = self@;
        let mut out: Vec<String> = Vec::new();
        std::mem::swap(&mut out, &mut self.dirty);
        proof {
            assert(texts(self.dirty@) =~= Seq::<Seq<char>>::empty());
        }
        out
    }

    /// What is kept of a file, as it goes to disk: `None` where nothing is,
    /// and nothing inside where the file did not exist.
    pub fn original(&self, path: &str) -> (r: Option<Option<String>>)
        ensures
            match entry(self@.originals, path@) {
                None => r is None,
                Some(None) => r == Some(None::<String>),
                Some(Some(b)) => r matches Some(Some(s)) && s@ == stored(b),
            },
    {
        match kept_at(&self.originals, path) {
            None => None,
            Some(k) => match &self.originals[k].1 {
                Some(b) => Some(Some(snapshot_to_store(b.as_slice()))),
                None => Some(None),
            },
        }
    }

    /// Takes over what was kept on disk. It is not written again.
    pub fn restore(&mut self, entries: Vec<(String, Option<String>)>)
        requires
            old(self)@.wf(),
        ensures
            final(self)@.wf(),
            final(self)@ == (TrackerV {
                originals: with_restored(old(self)@.originals, rows_say(entries@)),
                ..old(self)@
            }),
    {
        let ghost start = self@;
        let ghost all = rows_say(entries@);
        for i in 0..entries.len()
            invariant
                all == rows_say(entries@),
                self@ == (TrackerV {
                    originals: with_restored(start.originals, all.take(i as int)),
                    ..start
                }),
                self@.wf(),
        {
            let ghost before = self@;
            proof {
                assert(all.take(i as int + 1).drop_last() =~= all.take(i as int));
                assert(all.take(i as int + 1).last() == (
                    entries@[i as int].0@,
                    opt_text(entries@[i as int].1),
                ));
                lemma_slot(before.originals, entries@[i as int].0@, 0);
            }
            let bytes = match &entries[i].1 {
                Some(s) => Some(snapshot_from_store(s.as_str())),
                None => None,
            };
            let ghost bv = bytes_in(bytes);
            let ghost key = entries@[i as int].0@;
            match kept_at(&self.originals, entries[i].0.as_str()) {
                Some(k) => {
                    self.originals[k].1 = bytes;
                    proof {
                        assert(kept_say(self.originals@) =~= before.originals.update(
                            k as int,
                            (key, bv),
                        ));
                    }
                },
                None => {
                    self.originals.push((entries[i].0.clone(), bytes));
                    proof {
                        assert(kept_say(self.originals@) =~= before.originals.push((key, bv)));
                    }
                },
            }
        }
        proof {
            assert(all.take(entries@.len() as int) =~= all);
        }
    }

    /// The change of a file since the session began, which is counted.
    /// `current` is what reading the file gave.
    pub fn diff(
        &mut self,
        path: &str,
        root: &str,
        cwd: &str,
        current: Result<Vec<u8>, String>,
    ) -> (r: Result<EditDiff, String>)
        requires
            old(self)@.wf(),
        ensures
            final(self)@.wf(),
            match (entry(old(self)@.originals, path@), current) {
                (None, _) => r is Err && r->Err_0@ == "文件未追踪"@ && final(self)@ == old(self)@,
                (Some(_), Err(e)) => r is Err && r->Err_0@ == "读取失败 "@ + path@ + ": "@ + e@
                    && final(self)@ == old(self)@,
                (Some(b), Ok(now)) => {
                    let c = change_of(
                        shown_path(path@, root@, cwd@),
                        text_before_change(b),
                        view_of(now@),
                    );
                    &&& r is Ok
                    &&& r->Ok_0@ == c
                    &&& final(self)@ == (TrackerV {
                        stats: with_entry(old(self)@.stats, path@, (c.additions, c.deletions)),
                        ..old(self)@
                    })
                },
            },
    {
        let ghost before = self@;
        let k = match kept_at(&self.originals, path) {
            Some(k) => k,
            None => return Err(text_from("文件未追踪")),
        };
        let now = match current {
            Ok(b) => b,
            Err(e) => return Err(read_failure(path, e.as_str())),
        };
        let old_text = view_before(&self.originals[k].1);
        let new_text = decoded_view(now.as_slice());
        let shown = relative_path(path, root, cwd);
        let c = file_change(shown.as_str(), old_text.as_str(), new_text.as_str());
        proof {
            lemma_slot(before.stats, path@, 0);
        }
        match stat_at(&self.stats, path) {
            Some(j) => {
                self.stats[j].1 = (c.additions, c.deletions);
                proof {
                    assert(stats_say(self.stats@) =~= before.stats.update(
                        j as int,
                        (path@, (c.additions, c.deletions)),
                    ));
                }
            },
            None => {
                self.stats.push((text_from(path), (c.additions, c.deletions)));
                proof {
                    assert(stats_say(self.stats@) =~= before.stats.push(
                        (path@, (c.additions, c.deletions)),
                    ));
                }
            },
        }
        Ok(c)
    }

    /// The files that the turn changed.
    pub fn turn_paths(&self) -> (r: Vec<String>)
        ensures
            texts(r@) == keys_of(self@.turn_originals),
    {
        list_keys(&self.turn_originals)
    }

    /// Takes the changes of the turn, in the order of their paths. `now` is
    /// what the files of `turn_paths` hold now, nothing where one cannot be
    /// read.
    pub fn take_turn_changes(&mut self, root: &str, cwd: &str, now: &[Option<Vec<u8>>]) -> (r: Vec<
        EditDiff,
    >)
        requires
            old(self)@.wf(),
            now@.len() == old(self)@.turn_originals.len(),
        ensures
            final(self)@.wf(),
            final(self)@ == (TrackerV { turn_originals: Seq::empty(), ..old(self)@ }),
            edit_diffs_say(r@) == by_path(
                turn_changes(old(self)@.turn_originals, all_bytes(now@), root@, cwd@),
            ),
    {
        let ghost before = self@;
        let ghost all = kept_say(self.turn_originals@);
        let ghost bytes = all_bytes(now@);
        let mut entries: Vec<(String, Option<Vec<u8>>)> = Vec::new();
        std::mem::swap(&mut entries, &mut self.turn_originals);
        let mut out: Vec<EditDiff> = Vec::new();
        proof {
            assert(edit_diffs_say(out@) =~= Seq::<EditDiffV>::empty());
            assert(self@.turn_originals =~= Seq::<(Seq<char>, Option<Seq<u8>>)>::empty());
        }
        for i in 0..entries.len()
            invariant
                all == kept_say(entries@),
                bytes == all_bytes(now@),
                now@.len() == entries@.len(),
                edit_diffs_say(out@) == by_path(
                    turn_changes(all.take(i as int), bytes.take(i as int), root@, cwd@),
                ),
        {
            proof {
                assert(all.take(i as int + 1).drop_last() =~= all.take(i as int));
                assert(bytes.take(i as int + 1).drop_last() =~= bytes.take(i as int));
                assert(all.take(i as int + 1).last() == (
                    entries@[i as int].0@,
                    bytes_in(entries@[i as int].1),
                ));
                assert(bytes.take(i as int + 1).last() == bytes_in(now@[i as int]));
            }
            match &now[i] {
                Some(b) => {
                    let old_text = view_before(&entries[i].1);
                    let new_text = decoded_view(b.as_slice());
                    let shown = relative_path(entries[i].0.as_str(), root, cwd);
                    let c = file_change(shown.as_str(), old_text.as_str(), new_text.as_str());
                    if !(c.additions == 0 && c.deletions == 0) {
                        let ghost so_far = turn_changes(
                            all.take(i as int),
                            bytes.take(i as int),
                            root@,
                            cwd@,
                        );
                        proof {
                            assert(so_far.push(c@).drop_last() =~= so_far);
                        }
                        put_by_path(&mut out, c);
                    }
                },
                None => {},
            }
        }
        proof {
            assert(all.take(entries@.len() as int) =~= all);
            assert(bytes.take(entries@.len() as int) =~= bytes);
        }
        out
    }

    /// Forgets a file and hands out what it was like before the session, to be
    /// put back; nothing inside where the file is to be deleted.
    pub fn revert(&mut self, path: &str) -> (r: Result<Option<Vec<u8>>, String>)
        requires
            old(self)@.wf(),
        ensures
            final(self)@.wf(),
            match entry(old(self)@.originals, path@) {
                None => r is Err && r->Err_0@ == "文件未被修改过，无法撤销"@ && final(self)@ == old(
                    self,
                )@,
                Some(b) => r is Ok && bytes_in(r->Ok_0) == b && final(self)@ == (TrackerV {
                    originals: without_entry(old(self)@.originals, path@),
                    stats: without_entry(old(self)@.stats, path@),
                    ..old(self)@
                }),
            },
    {
        let ghost before = self@;
        proof {
            lemma_slot(before.originals, path@, 0);
            lemma_slot(before.stats, path@, 0);
        }
        match kept_at(&self.originals, path) {
            None => Err(text_from("文件未被修改过，无法撤销")),
            Some(k) => {
                let (_name, bytes) = self.originals.remove(k);
                proof {
                    assert(kept_say(self.originals@) =~= before.originals.remove(k as int));
                }
                match stat_at(&self.stats, path) {
                    Some(j) => {
                        let _gone = self.stats.remove(j);
                        proof {
                            assert(stats_say(self.stats@) =~= before.stats.remove(j as int));
                        }
                    },
                    None => {},
                }
                Ok(bytes)
            },
        }
    }

    /// How many lines were added and deleted in all, counted round past the
    /// largest `u32`.
    pub fn totals(&self) -> (r: (u32, u32))
        ensures
            r.0 as nat == sums(self@.stats).0 % 0x1_0000_0000,
            r.1 as nat == sums(self@.stats).1 % 0x1_0000_0000,
    {
        let ghost all = stats_say(self.stats@);
        let mut a: u32 = 0;
        let mut d: u32 = 0;
        for i in 0..self.stats.len()
            invariant
                all == stats_say(self.stats@),
                a as nat == sums(all.take(i as int)).0 % 0x1_0000_0000,
                d as nat == sums(all.take(i as int)).1 % 0x1_0000_0000,
        {
            proof {
                assert(all.take(i as int + 1).drop_last() =~= all.take(i as int));
                assert(all.take(i as int + 1).last().1 == self.stats@[i as int].1);
            }
            a = a.wrapping_add(self.stats[i].1.0);
            d = d.wrapping_add(self.stats[i].1.1);
        }
        proof {
            assert(all.take(self.stats@.len() as int) =~= all);
        }
        (a, d)
    }

    /// The files of which something is kept.
    pub fn tracked_paths(&self) -> (r: Vec<String>)
        ensures
            texts(r@) == keys_of(self@.originals),
    {
        list_keys(&self.originals)
    }
}

/// What went wrong when a file was put back, or deleted where there was none
/// before.
pub fn revert_failure(existed: bool, path: &str, e: &str) -> (r: String)
    ensures
        r@ == (if existed {
            "恢复失败 "@
        } else {
            "删除新建文件失败 "@
        }) + path@ + ": "@ + e@,
{
    let mut out = if existed {
        chars_of("恢复失败 ")
    } else {
        chars_of("删除新建文件失败 ")
    };
    push_text(&mut out, path);
    push_text(&mut out, ": ");
    push_text(&mut out, e);
    string_of(out.as_slice())
}

// ---------------------------------------------------------------------------
// Laws
// ---------------------------------------------------------------------------

proof fn lemma_digit(n: int)
    requires
        0 <= n < 16,
    ensures
        hex_value(hex_digit(n)) == Some(n),
{
}

proof fn lemma_unhex(b: Seq<u8>)
    ensures
        unhex(hex(b)) == b,
    decreases b.len(),
{
    if b.len() > 0 {
        lemma_unhex(b.skip(1));
        lemma_digit(b[0] as int / 16);
        lemma_digit(b[0] as int % 16);
        let h = hex(b);
        assert(h[0] == hex_digit(b[0] as int / 16));
        assert(h[1] == hex_digit(b[0] as int % 16));
        assert(h.skip(2) =~= hex(b.skip(1)));
        assert(seq![b[0]] + b.skip(1) =~= b);
    }
}

/// Bytes are read back as they were kept, unless they are a text that begins
/// like bytes in hexadecimal digits.
pub proof fn law_snapshot_reads_back(b: Seq<u8>)
    requires
        valid_utf8(b) ==> !starts_with(decode_utf8(b), SNAPSHOT_HEX_PREFIX@),
    ensures
        unstored(stored(b)) == b,
{
    if valid_utf8(b) {
        vstd::utf8::decode_utf8_encode_utf8(b);
    } else {
        lemma_unhex(b);
        let s = stored(b);
        let p = SNAPSHOT_HEX_PREFIX@;
        assert(s.subrange(0, p.len() as int) =~= p);
        assert(starts_with(s, p));
        assert(s.skip(p.len() as int) =~= hex(b));
    }
}

proof fn lemma_entry_pushed<T>(v: Seq<(Seq<char>, T)>, key: Seq<char>, x: T, i: int)
    requires
        0 <= i <= v.len(),
        entry_from(v, key, i) is None,
    ensures
        entry_from(v.push((key, x)), key, i) == Some(x),
    decreases v.len() - i,
{
    if i < v.len() {
        assert(v.push((key, x))[i] == v[i]);
        lemma_entry_pushed(v, key, x, i + 1);
    }
}

/// What is kept of a file is what it held before its first change: a later
/// change adds nothing.
pub proof fn law_first_snapshot_counts(
    t: TrackerV,
    path: Seq<char>,
    bytes: Option<Seq<u8>>,
    later: Option<Seq<u8>>,
)
    ensures
        entry(t.originals, path) is None ==> entry(
            snapshotted(t, path, bytes).originals,
            path,
        ) == Some(bytes),
        entry(t.originals, path) is Some ==> snapshotted(t, path, bytes).originals == t.originals,
        snapshotted(snapshotted(t, path, bytes), path, later) == snapshotted(t, path, bytes),
{
    let u = snapshotted(t, path, bytes);
    if entry(t.originals, path) is None {
        lemma_entry_pushed(t.originals, path, bytes, 0);
    }
    if entry(t.turn_originals, path) is None {
        lemma_entry_pushed(t.turn_originals, path, bytes, 0);
    }
    assert(snapshotted(u, path, later) =~= u);
}

proof fn lemma_removed_absent<T>(v: Seq<(Seq<char>, T)>, key: Seq<char>, i: int)
    requires
        0 <= i <= v.len(),
        forall|j: int| i <= j < v.len() ==> (#[trigger] v[j]).0 != key,
    ensures
        entry_from(v, key, i) is None,
    decreases v.len() - i,
{
    if i < v.len() {
        lemma_removed_absent(v, key, i + 1);
    }
}

/// A file that was put back is not tracked any more.
pub proof fn law_reverted_is_forgotten(t: TrackerV, path: Seq<char>)
    requires
        t.wf(),
    ensures
        entry(without_entry(t.originals, path), path) is None,
        entry(without_entry(t.stats, path), path) is None,
{
    lemma_slot(t.originals, path, 0);
    lemma_slot(t.stats, path, 0);
    lemma_removed_absent(without_entry(t.originals, path), path, 0);
    lemma_removed_absent(without_entry(t.stats, path), path, 0);
}

proof fn lemma_place_of(v: Seq<EditDiffV>, path: Seq<char>)
    requires
        paths_ascend(v),
    ensures
        0 <= place_of(v, path) <= v.len(),
        forall|i: int| 0 <= i < place_of(v, path) ==> text_le((#[trigger] v[i]).path, path),
        forall|i: int| place_of(v, path) <= i < v.len() ==> text_le(path, (#[trigger] v[i]).path),
    decreases v.len(),
{
    if v.len() > 0 {
        if text_le(v.last().path, path) {
            assert forall|i: int| 0 <= i < v.len() implies text_le((#[trigger] v[i]).path, path) by {
                lemma_text_le_trans(v[i].path, v[v.len() - 1].path, path);
            }
        } else {
            assert forall|i: int, j: int|
                0 <= i <= j < v.drop_last().len() implies text_le(
                (#[trigger] v.drop_last()[i]).path,
                (#[trigger] v.drop_last()[j]).path,
            ) by {
                assert(v.drop_last()[i] == v[i]);
                assert(v.drop_last()[j] == v[j]);
            }
            lemma_place_of(v.drop_last(), path);
            lemma_text_le_total(v.last().path, path);
            assert forall|i: int| 0 <= i < place_of(v, path) implies text_le(
                (#[trigger] v[i]).path,
                path,
            ) by {
                assert(v.drop_last()[i] == v[i]);
            }
            assert forall|i: int| place_of(v, path) <= i < v.len() implies text_le(
                path,
                (#[trigger] v[i]).path,
            ) by {
                if i < v.len() - 1 {
                    assert(v.drop_last()[i] == v[i]);
                }
            }
        }
    }
}

/// Whether the paths of changes ascend.
pub open spec fn paths_ascend(v: Seq<EditDiffV>) -> bool {
    forall|i: int, j: int|
        0 <= i <= j < v.len() ==> text_le((#[trigger] v[i]).path, (#[trigger] v[j]).path)
}

/// The changes of a turn come in the order of their paths, each of them once.
pub proof fn law_turn_changes_in_order(v: Seq<EditDiffV>)
    ensures
        paths_ascend(by_path(v)),
        by_path(v).to_multiset() == v.to_multiset(),
    decreases v.len(),
{
    broadcast use vstd::seq_lib::group_to_multiset_ensures;

    if v.len() > 0 {
        law_turn_changes_in_order(v.drop_last());
        let head = by_path(v.drop_last());
        let x = v.last();
        lemma_place_of(head, x.path);
        let k = place_of(head, x.path);
        let r = head.insert(k, x);
        assert forall|i: int, j: int| 0 <= i <= j < r.len() implies text_le(
            (#[trigger] r[i]).path,
            (#[trigger] r[j]).path,
        ) by {
            lemma_text_le_total(x.path, x.path);
            let a = if i < k {
                head[i]
            } else if i == k {
                x
            } else {
                head[i - 1]
            };
            let b = if j < k {
                head[j]
            } else if j == k {
                x
            } else {
                head[j - 1]
            };
            assert(r[i] == a);
            assert(r[j] == b);
            if i < k && k < j {
                lemma_text_le_trans(a.path, x.path, b.path);
            }
        }
        assert(v =~= v.drop_last().push(x));
    }
}

/// What is kept of a file is an entry of the list with its path, and every
/// entry is found.
pub proof fn law_entries_are_found<T>(v: Seq<(Seq<char>, T)>, key: Seq<char>, x: T)
    requires
        keys_apart(v),
    ensures
        entry(v, key) == Some(x) <==> v.contains((key, x)),
{
    lemma_slot(v, key, 0);
    let k = slot_from(v, key, 0);
    if k < v.len() {
        assert(v[k] == (key, v[k].1));
    }
    if v.contains((key, x)) {
        let i = choose|i: int| 0 <= i < v.len() && v[i] == (key, x);
        assert(v[i].0 == key);
        if k < i {
            assert(v[k].0 != v[i].0);
        }
        assert(k == i);
    }
}

/// Setting an entry gives its key the new value and changes no other; taking
/// one away takes away no other.
pub proof fn law_entries_are_apart<T>(v: Seq<(Seq<char>, T)>, key: Seq<char>, x: T, e: (Seq<char>, T))
    requires
        keys_apart(v),
    ensures
        with_entry(v, key, x).contains(e) <==> e == (key, x) || (e.0 != key && v.contains(e)),
        without_entry(v, key).contains(e) <==> e.0 != key && v.contains(e),
{
    lemma_slot(v, key, 0);
    let k = slot_from(v, key, 0);
    let w = with_entry(v, key, x);
    let o = without_entry(v, key);
    if k < v.len() {
        assert(w[k] == (key, x));
    } else {
        assert(w[v.len() as int] == (key, x));
    }
    if v.contains(e) && e.0 != key {
        let i = choose|i: int| 0 <= i < v.len() && v[i] == e;
        assert(w[i] == e);
        if i < k {
            assert(o[i] == e);
        } else {
            assert(o[i - 1] == e);
        }
    }
    if w.contains(e) && e != (key, x) {
        let i = choose|i: int| 0 <= i < w.len() && w[i] == e;
        assert(v[i] == e);
        assert(v[i].0 != key) by {
            if k < i && k < v.len() {
                assert(v[k].0 != v[i].0);
            }
        }
    }
    if o.contains(e) {
        let i = choose|i: int| 0 <= i < o.len() && o[i] == e;
        if k < v.len() {
            if i < k {
                assert(v[i] == e);
            } else {
                assert(v[i + 1] == e);
                assert(v[k].0 != v[i + 1].0);
            }
        } else {
            assert(v[i] == e);
        }
    }
}

/// Before the first change of a file what it holds is kept for the session and
/// for the turn, and nothing of any other file changes.
pub proof fn law_snapshot_touches_its_file(
    t: TrackerV,
    path: Seq<char>,
    bytes: Option<Seq<u8>>,
    e: (Seq<char>, Option<Seq<u8>>),
)
    requires
        t.wf(),
        e.0 != path,
    ensures
        ({
            let now = snapshotted(t, path, bytes);
            &&& now.originals.contains(e) <==> t.originals.contains(e)
            &&& now.turn_originals.contains(e) <==> t.turn_originals.contains(e)
            &&& now.stats == t.stats
            &&& entry(t.originals, path) is None ==> now.originals.contains((path, bytes))
            &&& entry(t.turn_originals, path) is None ==> now.turn_originals.contains(
                (path, bytes),
            )
            &&& entry(t.originals, path) is None <==> now.dirty != t.dirty
        }),
{
    let now = snapshotted(t, path, bytes);
    lemma_pushed_contains(t.originals, (path, bytes), e);
    lemma_pushed_contains(t.turn_originals, (path, bytes), e);
    assert(t.dirty.push(path).len() != t.dirty.len());
}

proof fn lemma_pushed_contains<T>(v: Seq<T>, x: T, e: T)
    ensures
        v.push(x).contains(x),
        v.push(x).contains(e) <==> v.contains(e) || e == x,
{
    assert(v.push(x)[v.len() as int] == x);
    if v.contains(e) {
        let i = choose|i: int| 0 <= i < v.len() && v[i] == e;
        assert(v.push(x)[i] == e);
    }
    if v.push(x).contains(e) && e != x {
        let i = choose|i: int| 0 <= i < v.push(x).len() && v.push(x)[i] == e;
        assert(v[i] == e);
    }
}

/// Each file of a turn that can be read now and has changed is among the
/// changes of the turn, from what it held before the turn to what it holds now;
/// one more file takes none of the others away.
pub proof fn law_turn_lists_each_change(
    v: Seq<(Seq<char>, Option<Seq<u8>>)>,
    now: Seq<Option<Seq<u8>>>,
    root: Seq<char>,
    cwd: Seq<char>,
    path: Seq<char>,
    was: Option<Seq<u8>>,
    is: Option<Seq<u8>>,
)
    requires
        v.len() == now.len(),
    ensures
        ({
            let before = turn_changes(v, now, root, cwd);
            let after = turn_changes(v.push((path, was)), now.push(is), root, cwd);
            let old = match was {
                Some(b) => view_of(b),
                None => view_of(Seq::empty()),
            };
            &&& is is None ==> after == before
            &&& is matches Some(b) ==> ({
                let c = change_of(shown_path(path, root, cwd), old, view_of(b));
                after == (if c.additions > 0 || c.deletions > 0 {
                    before.push(c)
                } else {
                    before
                })
            })
        }),
{
    assert(v.push((path, was)).drop_last() =~= v);
    assert(now.push(is).drop_last() =~= now);
}

/// The order by path keeps every change, each as often as it occurs.
pub proof fn law_order_keeps_every_change(v: Seq<EditDiffV>)
    ensures
        by_path(v).to_multiset() == v.to_multiset(),
    decreases v.len(),
{
    broadcast use vstd::seq_lib::group_to_multiset_ensures;

    if v.len() > 0 {
        let head = by_path(v.drop_last());
        law_order_keeps_every_change(v.drop_last());
        lemma_place_inside(head, v.last().path);
        let p = place_of(head, v.last().path);
        vstd::seq_lib::to_multiset_insert(head, p, v.last());
        assert(v =~= v.drop_last().push(v.last()));
        vstd::seq_lib::to_multiset_build(v.drop_last(), v.last());
    }
}

proof fn lemma_place_inside(v: Seq<EditDiffV>, path: Seq<char>)
    ensures
        0 <= place_of(v, path) <= v.len(),
    decreases v.len(),
{
    if v.len() > 0 && !crate::order::text_le(v.last().path, path) {
        lemma_place_inside(v.drop_last(), path);
    }
}

} // verus!
