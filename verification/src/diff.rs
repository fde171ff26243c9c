//! The difference between two texts, line by line.

use crate::chars::{cat, chars_of, push_text, str_eq, string_of};
use crate::json::{args_say, parse_args, text_at, JsonV};
use crate::paths::{join_path, relative_path, shown_path, under};
use crate::protocol::{opt_edit_diff, EditDiff, EditDiffV};
use vstd::prelude::*;

verus! {

/// How many lines a diff shows around a change.
pub const DIFF_CONTEXT: usize = 3;

/// What became of a line.
#[derive(Clone, Copy, Debug, PartialEq, Eq, Structural)]
pub enum LineChange {
    Same,
    Inserted,
    Deleted,
}

/// What `similar::TextDiff::from_lines` says of the lines of two texts, in
/// order.
pub uninterp spec fn line_changes(before: Seq<char>, after: Seq<char>) -> Seq<LineChange>;

/// What `similar`'s unified diff of two texts reads, with so many lines of
/// context and the two names in its head.
pub uninterp spec fn unified_text(
    before: Seq<char>,
    after: Seq<char>,
    context: usize,
    before_name: Seq<char>,
    after_name: Seq<char>,
) -> Seq<char>;

/// Calls `similar::TextDiff::from_lines` and hands out the tag of every
/// change. Without a deadline the result is a function of the two texts; it is
/// named `line_changes`.
#[verifier::external_body]
fn changes_of(before: &str, after: &str) -> (r: Vec<LineChange>)
    ensures
        r@ == line_changes(before@, after@),
{
    similar::TextDiff::from_lines(before, after)
        .iter_all_changes()
        .map(|change| match change.tag() {
            similar::ChangeTag::Equal => LineChange::Same,
            similar::ChangeTag::Insert => LineChange::Inserted,
            similar::ChangeTag::Delete => LineChange::Deleted,
        })
        .collect()
}

/// Calls `similar::TextDiff::from_lines` and writes its unified diff with
/// `context` lines around each change. The text is a function of the arguments;
/// it is named `unified_text`.
#[verifier::external_body]
fn unified_of(before: &str, after: &str, context: usize, before_name: &str, after_name: &str) -> (r:
    String)
    requires
        context <= usize::MAX / 2,
    ensures
        r@ == unified_text(before@, after@, context, before_name@, after_name@),
{
    similar::TextDiff::from_lines(before, after)
        .unified_diff()
        .context_radius(context)
        .header(before_name, after_name)
        .to_string()
}

/// The unified diff of a file.
pub open spec fn file_diff(path: Seq<char>, before: Seq<char>, after: Seq<char>) -> Seq<char> {
    unified_text(before, after, DIFF_CONTEXT, "a/"@ + path, "b/"@ + path)
}

/// How many of the changes are `what`.
pub open spec fn count_changes(v: Seq<LineChange>, what: LineChange) -> nat
    decreases v.len(),
{
    if v.len() == 0 {
        0
    } else {
        count_changes(v.drop_last(), what) + if v.last() == what {
            1nat
        } else {
            0nat
        }
    }
}

/// A count of lines as it is kept: in 32 bits.
pub open spec fn kept_count(n: nat) -> u32 {
    if n <= u32::MAX {
        n as u32
    } else {
        u32::MAX
    }
}

/// The change of a file from one text to another.
pub open spec fn change_of(path: Seq<char>, before: Seq<char>, after: Seq<char>) -> EditDiffV {
    let v = line_changes(before, after);
    EditDiffV {
        path,
        unified_diff: file_diff(path, before, after),
        additions: kept_count(count_changes(v, LineChange::Inserted)),
        deletions: kept_count(count_changes(v, LineChange::Deleted)),
    }
}

/// Writes the unified diff of a file.
pub fn unified_file_diff(path: &str, before: &str, after: &str) -> (r: String)
    ensures
        r@ == file_diff(path@, before@, after@),
{
    let a = cat("a/", path);
    let b = cat("b/", path);
    unified_of(before, after, DIFF_CONTEXT, a.as_str(), b.as_str())
}

/// Counts the changes that are `what`.
pub fn count_of(v: &[LineChange], what: LineChange) -> (r: u32)
    ensures
        r == kept_count(count_changes(v@, what)),
{
    let mut n: u32 = 0;
    for i in 0..v.len()
        invariant
            n == kept_count(count_changes(v@.take(i as int), what)),
    {
        proof {
            assert(v@.take(i as int + 1).drop_last() =~= v@.take(i as int));
            assert(v@.take(i as int + 1).last() == v@[i as int]);
        }
        if v[i] == what && n < u32::MAX {
            n = n + 1;
        }
    }
    proof {
        assert(v@.take(v@.len() as int) =~= v@);
    }
    n
}

/// Computes the change of a file from one text to another.
pub fn file_change(path: &str, before: &str, after: &str) -> (r: EditDiff)
    ensures
        r@ == change_of(path@, before@, after@),
{
    let v = changes_of(before, after);
    let additions = count_of(v.as_slice(), LineChange::Inserted);
    let deletions = count_of(v.as_slice(), LineChange::Deleted);
    EditDiff {
        path: crate::chars::text_from(path),
        unified_diff: unified_file_diff(path, before, after),
        additions,
        deletions,
    }
}

/// What the user is shown of a change: the path, and the diff.
pub open spec fn preview(path: Seq<char>, before: Seq<char>, after: Seq<char>) -> Seq<char> {
    path + "\n\n"@ + file_diff(path, before, after)
}

/// Writes what the user is shown of a change.
pub fn diff_preview(path: &str, before: &str, after: &str) -> (r: String)
    ensures
        r@ == preview(path@, before@, after@),
{
    let mut out = chars_of(path);
    push_text(&mut out, "\n\n");
    push_text(&mut out, unified_file_diff(path, before, after).as_str());
    string_of(out.as_slice())
}

/// Computes the change that one edit of the file `full` makes, under the path
/// by which the file is shown. `root` is the real path of the workspace `cwd`.
pub fn per_edit_diff(cwd: &str, root: &str, full: &str, before: &str, after: &str) -> (r: EditDiff)
    ensures
        r@ == change_of(shown_path(full@, root@, cwd@), before@, after@),
{
    let shown = relative_path(full, root, cwd);
    file_change(shown.as_str(), before, after)
}

/// The two texts that a call of an editing tool speaks of: what it takes away
/// and what it puts there.
pub open spec fn texts_of_call(tool: Seq<char>, args: JsonV) -> Option<(Seq<char>, Seq<char>)> {
    if tool == "Edit"@ {
        match (text_at(args, "old_string"@), text_at(args, "new_string"@)) {
            (Some(a), Some(b)) => Some((a, b)),
            _ => None,
        }
    } else if tool == "Write"@ {
        match text_at(args, "content"@) {
            Some(b) => Some((Seq::empty(), b)),
            None => None,
        }
    } else {
        None
    }
}

/// The change that the arguments of a call alone tell of.
pub open spec fn told_change(
    cwd: Seq<char>,
    root: Seq<char>,
    tool: Seq<char>,
    arguments: Seq<char>,
) -> Option<EditDiffV> {
    let args = args_say(arguments);
    match text_at(args, "path"@) {
        None => None,
        Some(path) => match texts_of_call(tool, args) {
            None => None,
            Some((before, after)) => Some(
                change_of(shown_path(under(cwd, path), root, cwd), before, after),
            ),
        },
    }
}

/// Computes the change that the arguments of a call tell of, where the record
/// of the call does not hold it: an edit by the two texts, a written file as a
/// new one. `root` is the real path of the workspace `cwd`.
pub fn fallback_edit_diff(cwd: &str, root: &str, tool: &str, arguments: &str) -> (r: Option<
    EditDiff,
>)
    ensures
        opt_edit_diff(r) == told_change(cwd@, root@, tool@, arguments@),
{
    let args = parse_args(arguments);
    let path = match args.str_at("path") {
        Some(p) => p,
        None => return None,
    };
    let (before, after) = if str_eq(tool, "Edit") {
        match (args.str_at("old_string"), args.str_at("new_string")) {
            (Some(a), Some(b)) => (a, b),
            _ => return None,
        }
    } else if str_eq(tool, "Write") {
        match args.str_at("content") {
            Some(b) => (String::new(), b),
            None => return None,
        }
    } else {
        return None;
    };
    let full = join_path(cwd, path.as_str());
    Some(per_edit_diff(cwd, root, full.as_str(), before.as_str(), after.as_str()))
}

/// The change of a file counts every line that was put in and every line that
/// was taken out, each kind by itself, and has the file's own path.
pub proof fn law_changed_lines_are_counted(path: Seq<char>, before: Seq<char>, after: Seq<char>)
    ensures
        ({
            let v = line_changes(before, after);
            let put_in = v.filter(|c: LineChange| c == LineChange::Inserted).len();
            let taken_out = v.filter(|c: LineChange| c == LineChange::Deleted).len();
            let c = change_of(path, before, after);
            &&& c.path == path
            &&& put_in <= u32::MAX ==> c.additions == put_in
            &&& taken_out <= u32::MAX ==> c.deletions == taken_out
        }),
{
    lemma_count_filter(line_changes(before, after));
}

proof fn lemma_count_filter(v: Seq<LineChange>)
    ensures
        count_changes(v, LineChange::Inserted) == v.filter(
            |c: LineChange| c == LineChange::Inserted,
        ).len(),
        count_changes(v, LineChange::Deleted) == v.filter(
            |c: LineChange| c == LineChange::Deleted,
        ).len(),
    decreases v.len(),
{
    reveal(Seq::filter);
    if v.len() > 0 {
        lemma_count_filter(v.drop_last());
    }
}

} // verus!
