//! What a shell command may do: commands that only read, and commands that
//! the user is always asked about.

use crate::chars::{
    after_last, begins, behind_last, chars_of, contains, has_char, has_sub, is_white, reads, rows,
    starts_with, white, words, words_of,
};
use vstd::prelude::*;

verus! {

// ---------------------------------------------------------------------------
// Commands that only read
// ---------------------------------------------------------------------------

/// Whether `c` joins, redirects or nests commands.
pub open spec fn is_shell_char(c: char) -> bool {
    c == '>' || c == '<' || c == '|' || c == '&' || c == ';' || c == '`' || c == '\n' || c == '\r'
}

/// Whether a command of this name only reads.
pub open spec fn is_reader(w: Seq<char>) -> bool {
    ||| w == "ls"@
    ||| w == "cat"@
    ||| w == "head"@
    ||| w == "tail"@
    ||| w == "pwd"@
    ||| w == "echo"@
    ||| w == "find"@
    ||| w == "grep"@
    ||| w == "rg"@
    ||| w == "wc"@
    ||| w == "file"@
    ||| w == "stat"@
    ||| w == "which"@
    ||| w == "whoami"@
    ||| w == "date"@
    ||| w == "uname"@
    ||| w == "hostname"@
    ||| w == "tree"@
    ||| w == "du"@
    ||| w == "df"@
    ||| w == "sort"@
    ||| w == "uniq"@
    ||| w == "diff"@
}

/// Whether this subcommand of git only reads.
pub open spec fn is_git_reader(w: Seq<char>) -> bool {
    ||| w == "status"@
    ||| w == "log"@
    ||| w == "diff"@
    ||| w == "show"@
    ||| w == "rev-parse"@
    ||| w == "ls-files"@
    ||| w == "blame"@
    ||| w == "describe"@
    ||| w == "shortlog"@
}

/// Whether this subcommand of git lists when it has no argument.
pub open spec fn is_git_list(w: Seq<char>) -> bool {
    w == "branch"@ || w == "remote"@ || w == "tag"@
}

/// Whether a command is a single simple one that only reads: nothing joins,
/// redirects or nests commands in it, and its name is a reader's; for git the
/// subcommand counts.
pub open spec fn only_reads(command: Seq<char>) -> bool {
    let w = words(command);
    &&& forall|i: int| 0 <= i < command.len() ==> !is_shell_char(#[trigger] command[i])
    &&& !contains(command, "$("@)
    &&& w.len() > 0
    &&& (is_reader(w[0]) || (w[0] == "git"@ && w.len() > 1 && (is_git_reader(w[1]) || (is_git_list(
        w[1],
    ) && w.len() == 2))))
}

fn reader(w: &[char]) -> (r: bool)
    ensures
        r == is_reader(w@),
{
    reads(w, "ls") || reads(w, "cat") || reads(w, "head") || reads(w, "tail") || reads(w, "pwd")
        || reads(w, "echo") || reads(w, "find") || reads(w, "grep") || reads(w, "rg") || reads(
        w,
        "wc",
    ) || reads(w, "file") || reads(w, "stat") || reads(w, "which") || reads(w, "whoami") || reads(
        w,
        "date",
    ) || reads(w, "uname") || reads(w, "hostname") || reads(w, "tree") || reads(w, "du") || reads(
        w,
        "df",
    ) || reads(w, "sort") || reads(w, "uniq") || reads(w, "diff")
}

fn git_reader(w: &[char]) -> (r: bool)
    ensures
        r == is_git_reader(w@),
{
    reads(w, "status") || reads(w, "log") || reads(w, "diff") || reads(w, "show") || reads(
        w,
        "rev-parse",
    ) || reads(w, "ls-files") || reads(w, "blame") || reads(w, "describe") || reads(w, "shortlog")
}

/// Whether a command certainly only reads.
pub fn is_readonly_command(command: &str) -> (r: bool)
    ensures
        r == only_reads(command@),
{
    let s = chars_of(command);
    for i in 0..s.len()
        invariant
            s@ == command@,
            forall|k: int| 0 <= k < i ==> !is_shell_char(#[trigger] command@[k]),
    {
        let c = s[i];
        if c == '>' || c == '<' || c == '|' || c == '&' || c == ';' || c == '`' || c == '\n' || c
            == '\r' {
            proof {
                assert(is_shell_char(command@[i as int]));
            }
            return false;
        }
    }
    if has_sub(s.as_slice(), "$(") {
        return false;
    }
    let w = words_of(s.as_slice());
    proof {
        assert(rows(w@).len() == w@.len());
    }
    if w.len() == 0 {
        return false;
    }
    proof {
        assert(rows(w@)[0] == w@[0]@);
    }
    if reader(w[0].as_slice()) {
        return true;
    }
    if !reads(w[0].as_slice(), "git") || w.len() < 2 {
        return false;
    }
    proof {
        assert(rows(w@)[1] == w@[1]@);
    }
    let second = w[1].as_slice();
    git_reader(second) || ((reads(second, "branch") || reads(second, "remote") || reads(
        second,
        "tag",
    )) && w.len() == 2)
}

// ---------------------------------------------------------------------------
// Commands that the user is always asked about
// ---------------------------------------------------------------------------

/// `s` without white space.
pub open spec fn squeezed(s: Seq<char>) -> Seq<char>
    decreases s.len(),
{
    if s.len() == 0 {
        Seq::empty()
    } else if is_white(s.last()) {
        squeezed(s.drop_last())
    } else {
        squeezed(s.drop_last()).push(s.last())
    }
}

/// Whether a command can begin behind the word `w`.
pub open spec fn leads_command(w: Seq<char>) -> bool {
    ||| (w.len() > 0 && w.last() == ';')
    ||| (w.len() > 0 && w.last() == '&')
    ||| w == "|"@
    ||| w == "||"@
    ||| w == "("@
    ||| w == "sudo"@
    ||| w == "then"@
    ||| w == "do"@
    ||| w == "if"@
    ||| w == "!"@
}

/// Whether word `i` can be the name of a command.
pub open spec fn at_command(w: Seq<Seq<char>>, i: int) -> bool {
    i == 0 || leads_command(w[i - 1])
}

/// Whether `t` is a bundle of short flags with both `r` (or `R`) and `f`.
pub open spec fn is_force_flag(t: Seq<char>) -> bool {
    t.len() > 0 && t[0] == '-' && !starts_with(t, "--"@) && (t.contains('r') || t.contains('R'))
        && t.contains('f')
}

/// Whether `t` is a word that `rm` takes as flags.
pub open spec fn is_short_flag(t: Seq<char>) -> bool {
    t.len() > 0 && t[0] == '-' && !starts_with(t, "--"@)
}

/// Whether `t` is the root, the home or the current directory.
pub open spec fn is_vital_dir(t: Seq<char>) -> bool {
    t == "/"@ || t == "/*"@ || t == "~"@ || t == "~/"@ || t == "$HOME"@ || t == "."@
}

/// Whether `t` makes `dd` write to a device other than the harmless ones.
pub open spec fn is_device_output(t: Seq<char>) -> bool {
    let target = t.skip(3);
    starts_with(t, "of="@) && starts_with(target, "/dev/"@) && target != "/dev/null"@ && target
        != "/dev/zero"@ && target != "/dev/random"@ && target != "/dev/urandom"@
}

/// Whether `t` is a flag with `R` in it.
pub open spec fn is_recursive_flag(t: Seq<char>) -> bool {
    t.len() > 0 && t[0] == '-' && t.contains('R')
}

/// Whether a word behind `i` is `t`.
pub open spec fn later_is(w: Seq<Seq<char>>, i: int, t: Seq<char>) -> bool {
    exists|j: int| i < j < w.len() && #[trigger] w[j] == t
}

/// Why the command that begins at word `i` is dangerous, where it is.
pub open spec fn reason_at(w: Seq<Seq<char>>, i: int) -> Option<Seq<char>> {
    let base = after_last(w[i], '/');
    let next = if i + 1 < w.len() {
        Some(w[i + 1])
    } else {
        None
    };
    if base == "rm"@ && (exists|j: int| i < j < w.len() && is_force_flag(#[trigger] w[j])) && (
    exists|j: int| i < j < w.len() && !is_short_flag(#[trigger] w[j]) && is_vital_dir(w[j])) {
        Some("rm -rf 指向根/家/当前目录"@)
    } else if base == "mkfs"@ || starts_with(base, "mkfs."@) || base == "fdisk"@ {
        Some("磁盘格式化/分区操作"@)
    } else if base == "diskutil"@ && next is Some && starts_with(next->0, "erase"@) {
        Some("磁盘格式化/分区操作"@)
    } else if base == "dd"@ && (exists|j: int| i < j < w.len() && is_device_output(#[trigger] w[j])) {
        Some("dd 写入块设备"@)
    } else if base == "shutdown"@ || base == "reboot"@ || base == "halt"@ || base == "poweroff"@ {
        Some("关机/重启操作"@)
    } else if base == "systemctl"@ && next is Some && (next->0 == "poweroff"@ || next->0 == "reboot"@
        || next->0 == "halt"@ || next->0 == "kexec"@) {
        Some("关机/重启操作"@)
    } else if base == "init"@ && next is Some && (next->0 == "0"@ || next->0 == "6"@) {
        Some("关机/重启操作"@)
    } else if (base == "chmod"@ || base == "chown"@) && (exists|j: int|
        i < j < w.len() && is_recursive_flag(#[trigger] w[j])) && later_is(w, i, "/"@) && (base
        == "chown"@ || later_is(w, i, "777"@)) {
        Some("递归改权/改属根目录"@)
    } else {
        None
    }
}

/// Why a command is dangerous from word `i` on: the first reason there is.
pub open spec fn first_reason(w: Seq<Seq<char>>, i: int) -> Option<Seq<char>>
    decreases w.len() - i,
{
    if i < 0 || i >= w.len() {
        None
    } else if at_command(w, i) && reason_at(w, i) is Some {
        reason_at(w, i)
    } else {
        first_reason(w, i + 1)
    }
}

/// Why a command is dangerous, where it is.
pub open spec fn danger(command: Seq<char>) -> Option<Seq<char>> {
    let s = squeezed(command);
    if contains(s, ":(){"@) && contains(s, "|:&"@) {
        Some("fork 炸弹"@)
    } else {
        first_reason(words(command), 0)
    }
}

fn squeeze(s: &[char]) -> (r: Vec<char>)
    ensures
        r@ == squeezed(s@),
{
    let mut out: Vec<char> = Vec::new();
    for i in 0..s.len()
        invariant
            out@ == squeezed(s@.take(i as int)),
    {
        proof {
            assert(s@.take(i as int + 1).drop_last() =~= s@.take(i as int));
        }
        if !white(s[i]) {
            out.push(s[i]);
        }
    }
    proof {
        assert(s@.take(s@.len() as int) =~= s@);
    }
    out
}

fn command_may_follow(w: &[char]) -> (r: bool)
    ensures
        r == leads_command(w@),
{
    let n = w.len();
    (n > 0 && w[n - 1] == ';') || (n > 0 && w[n - 1] == '&') || reads(w, "|") || reads(w, "||")
        || reads(w, "(") || reads(w, "sudo") || reads(w, "then") || reads(w, "do") || reads(w, "if")
        || reads(w, "!")
}

fn later_reads(w: &[Vec<char>], i: usize, t: &str) -> (r: bool)
    requires
        i < w.len(),
    ensures
        r == later_is(rows(w@), i as int, t@),
{
    let ghost all = rows(w@);
    let mut j: usize = i + 1;
    while j < w.len()
        invariant
            i < j <= w.len(),
            all == rows(w@),
            forall|k: int| i < k < j ==> all[k] != t@,
        decreases w.len() - j,
    {
        if reads(w[j].as_slice(), t) {
            proof {
                assert(all[j as int] == t@);
            }
            return true;
        }
        j = j + 1;
    }
    false
}

fn later_force_flag(w: &[Vec<char>], i: usize) -> (r: bool)
    requires
        i < w.len(),
    ensures
        r == (exists|j: int| i < j < w@.len() && is_force_flag(#[trigger] rows(w@)[j])),
{
    let ghost all = rows(w@);
    let mut j: usize = i + 1;
    while j < w.len()
        invariant
            i < j <= w.len(),
            all == rows(w@),
            forall|k: int| i < k < j ==> !is_force_flag(#[trigger] all[k]),
        decreases w.len() - j,
    {
        let t = w[j].as_slice();
        if t.len() > 0 && t[0] == '-' && !begins(t, "--") && (has_char(t, 'r') || has_char(t, 'R'))
            && has_char(t, 'f') {
            proof {
                assert(is_force_flag(all[j as int]));
            }
            return true;
        }
        proof {
            assert(all[j as int] == t@);
        }
        j = j + 1;
    }
    false
}

fn later_vital_dir(w: &[Vec<char>], i: usize) -> (r: bool)
    requires
        i < w.len(),
    ensures
        r == (exists|j: int|
            i < j < w@.len() && !is_short_flag(#[trigger] rows(w@)[j]) && is_vital_dir(
                rows(w@)[j],
            )),
{
    let ghost all = rows(w@);
    let mut j: usize = i + 1;
    while j < w.len()
        invariant
            i < j <= w.len(),
            all == rows(w@),
            forall|k: int|
                i < k < j ==> is_short_flag(#[trigger] all[k]) || !is_vital_dir(all[k]),
        decreases w.len() - j,
    {
        let t = w[j].as_slice();
        let flag = t.len() > 0 && t[0] == '-' && !begins(t, "--");
        proof {
            assert(all[j as int] == t@);
        }
        if !flag && (reads(t, "/") || reads(t, "/*") || reads(t, "~") || reads(t, "~/") || reads(
            t,
            "$HOME",
        ) || reads(t, ".")) {
            return true;
        }
        j = j + 1;
    }
    false
}

fn later_device_output(w: &[Vec<char>], i: usize) -> (r: bool)
    requires
        i < w.len(),
    ensures
        r == (exists|j: int| i < j < w@.len() && is_device_output(#[trigger] rows(w@)[j])),
{
    let ghost all = rows(w@);
    let mut j: usize = i + 1;
    while j < w.len()
        invariant
            i < j <= w.len(),
            all == rows(w@),
            forall|k: int| i < k < j ==> !is_device_output(#[trigger] all[k]),
        decreases w.len() - j,
    {
        let t = w[j].as_slice();
        proof {
            assert(all[j as int] == t@);
            reveal_strlit("of=");
        }
        if begins(t, "of=") {
            let target = vstd::slice::slice_subrange(t, 3, t.len());
            proof {
                assert(target@ =~= t@.skip(3));
            }
            if begins(target, "/dev/") && !reads(target, "/dev/null") && !reads(target, "/dev/zero")
                && !reads(target, "/dev/random") && !reads(target, "/dev/urandom") {
                return true;
            }
        }
        j = j + 1;
    }
    false
}

fn later_recursive_flag(w: &[Vec<char>], i: usize) -> (r: bool)
    requires
        i < w.len(),
    ensures
        r == (exists|j: int| i < j < w@.len() && is_recursive_flag(#[trigger] rows(w@)[j])),
{
    let ghost all = rows(w@);
    let mut j: usize = i + 1;
    while j < w.len()
        invariant
            i < j <= w.len(),
            all == rows(w@),
            forall|k: int| i < k < j ==> !is_recursive_flag(#[trigger] all[k]),
        decreases w.len() - j,
    {
        let t = w[j].as_slice();
        proof {
            assert(all[j as int] == t@);
        }
        if t.len() > 0 && t[0] == '-' && has_char(t, 'R') {
            return true;
        }
        j = j + 1;
    }
    false
}

/// The text of an optional reason.
pub open spec fn opt_reason(r: Option<&'static str>) -> Option<Seq<char>> {
    match r {
        Some(t) => Some(t@),
        None => None,
    }
}

fn command_reason(w: &[Vec<char>], i: usize) -> (r: Option<&'static str>)
    requires
        i < w.len(),
    ensures
        opt_reason(r) == reason_at(rows(w@), i as int),
{
    let ghost all = rows(w@);
    proof {
        assert(all[i as int] == w@[i as int]@);
        assert(all.len() == w@.len());
        if i + 1 < w.len() {
            assert(all[i + 1] == w@[i + 1]@);
        }
    }
    let base = behind_last(w[i].as_slice(), '/');
    let more = i + 1 < w.len();
    if reads(base, "rm") && later_force_flag(w, i) && later_vital_dir(w, i) {
        return Some("rm -rf 指向根/家/当前目录");
    }
    if reads(base, "mkfs") || begins(base, "mkfs.") || reads(base, "fdisk") {
        return Some("磁盘格式化/分区操作");
    }
    if reads(base, "diskutil") && more && begins(w[i + 1].as_slice(), "erase") {
        return Some("磁盘格式化/分区操作");
    }
    if reads(base, "dd") && later_device_output(w, i) {
        return Some("dd 写入块设备");
    }
    if reads(base, "shutdown") || reads(base, "reboot") || reads(base, "halt") || reads(
        base,
        "poweroff",
    ) {
        return Some("关机/重启操作");
    }
    if reads(base, "systemctl") && more {
        let next = w[i + 1].as_slice();
        if reads(next, "poweroff") || reads(next, "reboot") || reads(next, "halt") || reads(
            next,
            "kexec",
        ) {
            return Some("关机/重启操作");
        }
    }
    if reads(base, "init") && more && (reads(w[i + 1].as_slice(), "0") || reads(
        w[i + 1].as_slice(),
        "6",
    )) {
        return Some("关机/重启操作");
    }
    if (reads(base, "chmod") || reads(base, "chown")) && later_recursive_flag(w, i) && later_reads(
        w,
        i,
        "/",
    ) && (reads(base, "chown") || later_reads(w, i, "777")) {
        return Some("递归改权/改属根目录");
    }
    None
}

/// Why a command is dangerous, where it has one of the plainly destructive
/// forms: the user is then asked, whatever else allows it.
pub fn is_dangerous_command(command: &str) -> (r: Option<&'static str>)
    ensures
        opt_reason(r) == danger(command@),
{
    let s = chars_of(command);
    let q = squeeze(s.as_slice());
    if has_sub(q.as_slice(), ":(){") && has_sub(q.as_slice(), "|:&") {
        return Some("fork 炸弹");
    }
    let w = words_of(s.as_slice());
    let ghost all = rows(w@);
    proof {
        assert(all.len() == w@.len());
    }
    for i in 0..w.len()
        invariant
            all == rows(w@),
            all == words(command@),
            all.len() == w@.len(),
            first_reason(all, 0) == first_reason(all, i as int),
            danger(command@) == first_reason(all, 0),
    {
        proof {
            if i > 0 {
                assert(all[i - 1] == w@[i - 1]@);
            }
        }
        if i == 0 || command_may_follow(w[i - 1].as_slice()) {
            let reason = command_reason(w.as_slice(), i);
            if reason.is_some() {
                return reason;
            }
        }
    }
    None
}

/// A text without white space is all its other characters, in their order.
pub proof fn law_squeezed_is_the_rest(s: Seq<char>)
    ensures
        squeezed(s) == s.filter(|c: char| !is_white(c)),
    decreases s.len(),
{
    reveal(Seq::filter);
    if s.len() > 0 {
        law_squeezed_is_the_rest(s.drop_last());
    }
}

/// A command that formats a disk or stops the machine is dangerous wherever it
/// can begin: at the start, behind `sudo`, or behind a word that ends in `;` or
/// `&`. So is one that removes the root, the home or the current directory by
/// force.
pub proof fn law_ruin_is_danger(command: Seq<char>, i: int, flag: int, target: int)
    requires
        0 <= i < words(command).len(),
        i == 0 || words(command)[i - 1] == "sudo"@ || (words(command)[i - 1].len() > 0 && (words(
            command,
        )[i - 1].last() == ';' || words(command)[i - 1].last() == '&')),
    ensures
        ({
            let w = words(command);
            &&& w[i] == "mkfs"@ || w[i] == "fdisk"@ || w[i] == "shutdown"@ || w[i] == "reboot"@
                || w[i] == "halt"@ || w[i] == "poweroff"@ ==> danger(command) is Some
            &&& w[i] == "rm"@ && i < flag < w.len() && w[flag] == "-rf"@ && i < target < w.len() && (
            w[target] == "/"@ || w[target] == "~"@ || w[target] == "."@) ==> danger(command) is Some
        }),
{
    let w = words(command);
    reveal_strlit("mkfs");
    reveal_strlit("fdisk");
    reveal_strlit("shutdown");
    reveal_strlit("reboot");
    reveal_strlit("halt");
    reveal_strlit("poweroff");
    reveal_strlit("rm");
    reveal_strlit("-rf");
    reveal_strlit("--");
    reveal_strlit("/");
    reveal_strlit("~");
    reveal_strlit(".");
    if !w[i].contains('/') {
        lemma_no_slash(w[i]);
    }
    assert(!"mkfs"@.contains('/') && !"fdisk"@.contains('/') && !"shutdown"@.contains('/')
        && !"reboot"@.contains('/') && !"halt"@.contains('/') && !"poweroff"@.contains('/')
        && !"rm"@.contains('/'));
    if i < flag < w.len() && w[flag] == "-rf"@ {
        assert("-rf"@[0] == '-' && "-rf"@[1] == 'r' && "-rf"@[2] == 'f');
        assert("-rf"@.contains('r')) by {
            assert("-rf"@[1] == 'r');
        }
        assert("-rf"@.contains('f')) by {
            assert("-rf"@[2] == 'f');
        }
        assert(!starts_with("-rf"@, "--"@)) by {
            assert("-rf"@.subrange(0, 2)[1] == 'r');
            assert("--"@[1] == '-');
        }
        assert(is_force_flag(w[flag]));
    }
    if i < target < w.len() && (w[target] == "/"@ || w[target] == "~"@ || w[target] == "."@) {
        assert(w[target][0] != '-');
        assert(!is_short_flag(w[target]) && is_vital_dir(w[target]));
    }
    assert(at_command(w, i));
    if reason_at(w, i) is Some {
        lemma_first_reason(w, 0, i);
    }
}

proof fn lemma_no_slash(s: Seq<char>)
    requires
        !s.contains('/'),
    ensures
        after_last(s, '/') == s,
{
    crate::chars::lemma_find_from(s, '/', 0);
    match crate::chars::find(s, '/') {
        Some(k) => {
            assert(s.contains(s[k]));
        },
        None => {},
    }
}

proof fn lemma_first_reason(w: Seq<Seq<char>>, from: int, i: int)
    requires
        0 <= from <= i < w.len(),
        at_command(w, i),
        reason_at(w, i) is Some,
    ensures
        first_reason(w, from) is Some,
    decreases i - from,
{
    if from < i {
        lemma_first_reason(w, from + 1, i);
    }
}

/// A command that only reads joins, redirects and nests no commands: it holds
/// no such character and no `$(`.
pub proof fn law_reading_is_simple(command: Seq<char>, i: int)
    requires
        only_reads(command),
        0 <= i < command.len(),
    ensures
        command[i] != '>' && command[i] != '<' && command[i] != '|' && command[i] != '&'
            && command[i] != ';' && command[i] != '`' && command[i] != '\n' && command[i] != '\r',
        i + 1 < command.len() ==> !(command[i] == '$' && command[i + 1] == '('),
        words(command)[0] != "rm"@,
{
    assert(!is_shell_char(command[i]));
    reveal_strlit("$(");
    if i + 1 < command.len() && command[i] == '$' && command[i + 1] == '(' {
        assert(command.subrange(i, i + 2) =~= "$("@);
        assert(crate::chars::stands_at(command, "$("@, i));
    }
    lemma_rm_is_no_reader();
}

proof fn lemma_rm_is_no_reader()
    ensures
        !is_reader("rm"@),
        "rm"@ != "git"@,
{
    reveal_strlit("rm");
    reveal_strlit("git");
    reveal_strlit("ls");
    reveal_strlit("cat");
    reveal_strlit("head");
    reveal_strlit("tail");
    reveal_strlit("pwd");
    reveal_strlit("echo");
    reveal_strlit("find");
    reveal_strlit("grep");
    reveal_strlit("rg");
    reveal_strlit("wc");
    reveal_strlit("file");
    reveal_strlit("stat");
    reveal_strlit("which");
    reveal_strlit("whoami");
    reveal_strlit("date");
    reveal_strlit("uname");
    reveal_strlit("hostname");
    reveal_strlit("tree");
    reveal_strlit("du");
    reveal_strlit("df");
    reveal_strlit("sort");
    reveal_strlit("uniq");
    reveal_strlit("diff");
    assert("rm"@.len() == 2 && "rm"@[0] == 'r' && "rm"@[1] == 'm');
    assert("ls"@[0] == 'l');
    assert("cat"@.len() == 3);
    assert("head"@.len() == 4);
    assert("tail"@.len() == 4);
    assert("pwd"@.len() == 3);
    assert("echo"@.len() == 4);
    assert("find"@.len() == 4);
    assert("grep"@.len() == 4);
    assert("rg"@[1] == 'g');
    assert("wc"@[0] == 'w');
    assert("file"@.len() == 4);
    assert("stat"@.len() == 4);
    assert("which"@.len() == 5);
    assert("whoami"@.len() == 6);
    assert("date"@.len() == 4);
    assert("uname"@.len() == 5);
    assert("hostname"@.len() == 8);
    assert("tree"@.len() == 4);
    assert("du"@[0] == 'd');
    assert("df"@[0] == 'd');
    assert("sort"@.len() == 4);
    assert("uniq"@.len() == 4);
    assert("diff"@.len() == 4);
}

} // verus!
