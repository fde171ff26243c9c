//! The tools that read, write and edit files: where they may reach, what a
//! file looks like to the model, and whether the model has seen the file as it
//! is.

use crate::chars::{
    ascii_lower, cat, cat3, cat5, chars_of, decimal, ends_with, finishes, join, joined, lines,
    lines_of, lowered, number_text, push_all, push_text, reads, replace, replaced, rows,
    starts_with, begins, str_eq, string_of, text_from, texts,
};
use crate::edit::{compute_edit, edit_of, EditMatchError, OutcomeV};
use crate::json::{flag_at, member, number_at, text_at, Json, JsonV};
use crate::media::{picture_kind, sniff_image};
use crate::order::{sort_texts, sorted};
use crate::paths::{
    below, file_name, is_absolute, join_path, lies_below, name_of, parent_of, parent_path, under,
};
use crate::text::{
    bytes_of, decode, decoded_view, document, encode, view_of, DocV, FileEncoding, LineEnding,
    TextDocument,
};
use std::hash::{DefaultHasher, Hasher};
use vstd::prelude::*;
use vstd::std_specs::hash::DefaultHasherAdditionalSpecFns;
use vstd::slice::slice_subrange;

verus! {

/// How many lines are read at a time.
pub const MAX_READ_LINES: u64 = 2000;

/// How many characters are read at a time.
pub const MAX_READ_CHARS: usize = 100_000;

/// How many characters of a line are shown.
pub const MAX_LINE_CHARS: usize = 2000;

/// How many names are listed when a file is not found.
pub const MAX_LISTED_NAMES: usize = 20;

// ---------------------------------------------------------------------------
// Where a path leads
// ---------------------------------------------------------------------------

/// What is done with a file.
#[derive(Clone, Copy, Debug, PartialEq, Eq, Structural)]
pub enum FsAccess {
    Read,
    Write,
}

/// Why a path does not lead into the workspace.
#[derive(Debug, PartialEq)]
pub enum BoundFailure {
    /// Its directory lies outside.
    ParentOutside { resolved: String },
    /// What it names lies outside: it is a link.
    TargetOutside { resolved: String },
    /// It is a link to something that does not exist.
    DanglingSymlink,
    Other(String),
}

/// What a `BoundFailure` says.
#[verifier::ext_equal]
pub enum BoundFailureV {
    ParentOutside { resolved: Seq<char> },
    TargetOutside { resolved: Seq<char> },
    DanglingSymlink,
    Other(Seq<char>),
}

impl View for BoundFailure {
    type V = BoundFailureV;

    open spec fn view(&self) -> BoundFailureV {
        match self {
            BoundFailure::ParentOutside { resolved } => BoundFailureV::ParentOutside {
                resolved: resolved@,
            },
            BoundFailure::TargetOutside { resolved } => BoundFailureV::TargetOutside {
                resolved: resolved@,
            },
            BoundFailure::DanglingSymlink => BoundFailureV::DanglingSymlink,
            BoundFailure::Other(m) => BoundFailureV::Other(m@),
        }
    }
}

/// What an outcome says.
pub open spec fn outcome(r: Result<String, String>) -> Result<Seq<char>, Seq<char>> {
    match r {
        Ok(s) => Ok(s@),
        Err(e) => Err(e@),
    }
}

/// What an outcome within bounds says.
pub open spec fn bounded(r: Result<String, BoundFailure>) -> Result<Seq<char>, BoundFailureV> {
    match r {
        Ok(s) => Ok(s@),
        Err(e) => Err(e@),
    }
}

/// The directory that has to exist for a path: the one that it lies in.
pub open spec fn home_of(cwd: Seq<char>, path: Seq<char>) -> Seq<char> {
    match parent_of(under(cwd, path)) {
        Some(p) => p,
        None => cwd,
    }
}

/// The directory that has to exist for a path.
pub fn home_dir(cwd: &str, path: &str) -> (r: String)
    ensures
        r@ == home_of(cwd@, path@),
{
    match parent_path(join_path(cwd, path).as_str()) {
        Some(p) => p,
        None => text_from(cwd),
    }
}

/// What the file system says of the directories of a path.
pub struct Dirs {
    /// The workspace without links, or the error.
    pub cwd_real: Result<String, String>,
    /// The error when the path's directory could not be made.
    pub made: Option<String>,
    /// The path's directory without links, or the error.
    pub parent_real: Result<String, String>,
}

/// Where a path leads, going by its directory.
pub open spec fn located(cwd: Seq<char>, path: Seq<char>, d: Dirs) -> Result<
    Seq<char>,
    BoundFailureV,
> {
    match d.cwd_real {
        Err(e) => Err(BoundFailureV::Other("工作目录无效 "@ + cwd + ": "@ + e@)),
        Ok(root) => match d.made {
            Some(e) => Err(
                BoundFailureV::Other("创建目录失败 "@ + home_of(cwd, path) + ": "@ + e@),
            ),
            None => match d.parent_real {
                Err(e) => Err(
                    BoundFailureV::Other("目录不存在 "@ + home_of(cwd, path) + ": "@ + e@),
                ),
                Ok(parent) => match name_of(under(cwd, path)) {
                    None => Err(BoundFailureV::Other("无效路径: "@ + path)),
                    Some(name) => if below(parent@, root@) is Some {
                        Ok(under(parent@, name))
                    } else {
                        Err(BoundFailureV::ParentOutside { resolved: under(parent@, name) })
                    },
                },
            },
        },
    }
}

fn four(a: &str, b: &str, c: &str, d: &str) -> (r: String)
    ensures
        r@ == a@ + b@ + c@ + d@,
{
    let mut out = chars_of(a);
    push_text(&mut out, b);
    push_text(&mut out, c);
    push_text(&mut out, d);
    string_of(out.as_slice())
}

/// Finds where a path leads, going by its directory.
pub fn locate(cwd: &str, path: &str, d: &Dirs) -> (r: Result<String, BoundFailure>)
    ensures
        bounded(r) == located(cwd@, path@, *d),
{
    let root = match &d.cwd_real {
        Err(e) => {
            return Err(BoundFailure::Other(four("工作目录无效 ", cwd, ": ", e.as_str())));
        },
        Ok(r) => r,
    };
    let home = home_dir(cwd, path);
    match &d.made {
        Some(e) => {
            return Err(BoundFailure::Other(four("创建目录失败 ", home.as_str(), ": ", e.as_str())));
        },
        None => {},
    }
    let parent = match &d.parent_real {
        Err(e) => {
            return Err(BoundFailure::Other(four("目录不存在 ", home.as_str(), ": ", e.as_str())));
        },
        Ok(p) => p,
    };
    let name = match file_name(join_path(cwd, path).as_str()) {
        None => return Err(BoundFailure::Other(cat("无效路径: ", path))),
        Some(n) => n,
    };
    let resolved = join_path(parent.as_str(), name.as_str());
    if lies_below(parent.as_str(), root.as_str()) {
        Ok(resolved)
    } else {
        Err(BoundFailure::ParentOutside { resolved })
    }
}

/// What the file system says of what a path names.
pub struct Target {
    pub is_symlink: bool,
    pub exists: bool,
    /// What it names without links, or the error.
    pub real_path: Result<String, String>,
}

/// Where a path leads that lies in the workspace by its directory: nowhere
/// else, unless it is a link.
pub open spec fn confined(resolved: Seq<char>, root: Seq<char>, t: Target) -> Result<
    Seq<char>,
    BoundFailureV,
> {
    if !t.is_symlink && !t.exists {
        Ok(resolved)
    } else {
        match t.real_path {
            Ok(p) => if below(p@, root) is Some {
                Ok(resolved)
            } else {
                Err(BoundFailureV::TargetOutside { resolved })
            },
            Err(e) => if t.is_symlink {
                Err(BoundFailureV::DanglingSymlink)
            } else {
                Err(BoundFailureV::Other("路径无效 "@ + resolved + ": "@ + e@))
            },
        }
    }
}

/// Checks that what a path names lies in the workspace.
pub fn confine(resolved: String, root: &str, t: &Target) -> (r: Result<String, BoundFailure>)
    ensures
        bounded(r) == confined(resolved@, root@, *t),
{
    if !t.is_symlink && !t.exists {
        return Ok(resolved);
    }
    match &t.real_path {
        Ok(p) => if lies_below(p.as_str(), root) {
            Ok(resolved)
        } else {
            Err(BoundFailure::TargetOutside { resolved })
        },
        Err(e) => if t.is_symlink {
            Err(BoundFailure::DanglingSymlink)
        } else {
            Err(BoundFailure::Other(four("路径无效 ", resolved.as_str(), ": ", e.as_str())))
        },
    }
}

/// What the user is told of a path that leads out of the workspace.
pub open spec fn bound_message(f: BoundFailureV, path: Seq<char>) -> Seq<char> {
    match f {
        BoundFailureV::ParentOutside { resolved: _ } => "路径越出工作目录: "@ + path,
        BoundFailureV::TargetOutside { resolved: _ } => "路径越出工作目录（符号链接）: "@ + path,
        BoundFailureV::DanglingSymlink => "符号链接指向不存在的目标，无法确认安全性，已拒绝: "@ + path,
        BoundFailureV::Other(m) => m,
    }
}

/// Only what lies in the workspace is allowed.
pub open spec fn checked(
    r: Result<Seq<char>, BoundFailureV>,
    path: Seq<char>,
) -> Result<Seq<char>, Seq<char>> {
    match r {
        Ok(p) => Ok(p),
        Err(f) => Err(bound_message(f, path)),
    }
}

/// Allows only what lies in the workspace.
pub fn resolve_checked(found: Result<String, BoundFailure>, path: &str) -> (r: Result<
    String,
    String,
>)
    ensures
        outcome(r) == checked(bounded(found), path@),
{
    match found {
        Ok(p) => Ok(p),
        Err(BoundFailure::ParentOutside { resolved: _ }) => Err(cat("路径越出工作目录: ", path)),
        Err(BoundFailure::TargetOutside { resolved: _ }) => Err(
            cat("路径越出工作目录（符号链接）: ", path),
        ),
        Err(BoundFailure::DanglingSymlink) => Err(
            cat("符号链接指向不存在的目标，无法确认安全性，已拒绝: ", path),
        ),
        Err(BoundFailure::Other(m)) => Err(m),
    }
}

/// Whether an absolute path leads into one of the directories for temporary
/// files. `candidate` is where it leads.
pub open spec fn in_tmp(path: Seq<char>, candidate: Seq<char>, roots: Seq<Seq<char>>) -> bool {
    is_absolute(path) && exists|i: int|
        0 <= i < roots.len() && below(candidate, #[trigger] roots[i]) is Some
}

/// Whether an absolute path leads into one of the directories for temporary
/// files.
pub fn is_tmp_absolute_path(path: &str, candidate: &str, roots: &[String]) -> (r: bool)
    ensures
        r == in_tmp(path@, candidate@, texts(roots@)),
{
    let c = chars_of(path);
    if c.len() == 0 || c[0] != '/' {
        return false;
    }
    let ghost all = texts(roots@);
    for i in 0..roots.len()
        invariant
            all == texts(roots@),
            is_absolute(path@),
            forall|k: int| 0 <= k < i ==> below(candidate@, #[trigger] all[k]) is None,
    {
        if lies_below(candidate, roots[i].as_str()) {
            proof {
                assert(below(candidate@, all[i as int]) is Some);
            }
            return true;
        }
    }
    false
}

/// What the switch that would allow an access is called.
pub open spec fn switch_name(access: FsAccess) -> Seq<char> {
    match access {
        FsAccess::Read => "允许读取工作区外文件"@,
        FsAccess::Write => "允许写入工作区外文件"@,
    }
}

/// What lies in the workspace is allowed, and so is what is asked for in a
/// directory for temporary files; the rest only where the session allows it.
/// A link to nothing is never followed.
pub open spec fn granted(
    r: Result<Seq<char>, BoundFailureV>,
    path: Seq<char>,
    tmp: bool,
    allowed: bool,
    access: FsAccess,
) -> Result<Seq<char>, Seq<char>> {
    match r {
        Ok(p) => Ok(p),
        Err(BoundFailureV::Other(m)) => Err(m),
        Err(BoundFailureV::DanglingSymlink) => Err(
            "符号链接指向不存在的目标，无法确认安全性，已拒绝: "@ + path,
        ),
        Err(BoundFailureV::ParentOutside { resolved }) => outside_of(
            resolved,
            path,
            tmp,
            allowed,
            access,
        ),
        Err(BoundFailureV::TargetOutside { resolved }) => outside_of(
            resolved,
            path,
            tmp,
            allowed,
            access,
        ),
    }
}

/// What becomes of a path that leads out of the workspace.
pub open spec fn outside_of(
    resolved: Seq<char>,
    path: Seq<char>,
    tmp: bool,
    allowed: bool,
    access: FsAccess,
) -> Result<Seq<char>, Seq<char>> {
    if tmp || allowed {
        Ok(resolved)
    } else {
        Err("路径越出工作目录: "@ + path + "（可在输入框模式菜单开启「"@ + switch_name(access) + "」）"@)
    }
}

fn grant_outside(resolved: String, path: &str, tmp: bool, allowed: bool, access: FsAccess) -> (r:
    Result<String, String>)
    ensures
        outcome(r) == outside_of(resolved@, path@, tmp, allowed, access),
{
    if tmp || allowed {
        return Ok(resolved);
    }
    let name = match access {
        FsAccess::Read => "允许读取工作区外文件",
        FsAccess::Write => "允许写入工作区外文件",
    };
    Err(cat5("路径越出工作目录: ", path, "（可在输入框模式菜单开启「", name, "」）"))
}

/// Allows an access by the session's rules. `tmp` says whether the path leads
/// into a directory for temporary files, and `allowed` whether the session
/// allows this access outside the workspace.
pub fn resolve_with_access(
    found: Result<String, BoundFailure>,
    path: &str,
    tmp: bool,
    allowed: bool,
    access: FsAccess,
) -> (r: Result<String, String>)
    ensures
        outcome(r) == granted(bounded(found), path@, tmp, allowed, access),
{
    match found {
        Ok(p) => Ok(p),
        Err(BoundFailure::Other(m)) => Err(m),
        Err(BoundFailure::DanglingSymlink) => Err(
            cat("符号链接指向不存在的目标，无法确认安全性，已拒绝: ", path),
        ),
        Err(BoundFailure::ParentOutside { resolved }) => grant_outside(
            resolved,
            path,
            tmp,
            allowed,
            access,
        ),
        Err(BoundFailure::TargetOutside { resolved }) => grant_outside(
            resolved,
            path,
            tmp,
            allowed,
            access,
        ),
    }
}

// ---------------------------------------------------------------------------
// Sensitive files
// ---------------------------------------------------------------------------

/// Whether a name is that of a file with environment variables, but no
/// template for one.
pub open spec fn is_env_name(n: Seq<char>) -> bool {
    (n == ".env"@ || starts_with(n, ".env."@)) && n != ".env.example"@ && n != ".env.sample"@ && n
        != ".env.template"@
}

/// Whether a name is that of a key: the stem alone or with a separator behind
/// it.
pub open spec fn is_key_name(n: Seq<char>, stem: Seq<char>) -> bool {
    n == stem || (starts_with(n, stem) && n.len() > stem.len() && (n[stem.len() as int] == '-'
        || n[stem.len() as int] == '_' || n[stem.len() as int] == '.'))
}

/// Whether a name is that of a private key.
pub open spec fn is_private_key(n: Seq<char>) -> bool {
    !ends_with(n, ".pub"@) && (is_key_name(n, "id_rsa"@) || is_key_name(n, "id_ed25519"@)
        || is_key_name(n, "id_ecdsa"@) || is_key_name(n, "id_dsa"@))
}

/// Whether a path is that of the credentials of a cloud.
pub open spec fn is_credentials(n: Seq<char>, path: Seq<char>) -> bool {
    n == "credentials"@ && match parent_of(path) {
        Some(p) => match name_of(p) {
            Some(d) => ascii_lower(d) == ".aws"@ || ascii_lower(d) == ".gcp"@,
            None => false,
        },
        None => false,
    }
}

/// Whether a file is never shown to a model or changed by it, going by its
/// name.
pub open spec fn is_secret(path: Seq<char>) -> bool {
    match name_of(path) {
        None => false,
        Some(name) => {
            let n = ascii_lower(name);
            is_env_name(n) || is_private_key(n) || is_credentials(n, path)
        },
    }
}

fn key_name(n: &[char], stem: &str) -> (r: bool)
    ensures
        r == is_key_name(n@, stem@),
{
    if reads(n, stem) {
        return true;
    }
    if !begins(n, stem) {
        return false;
    }
    let k = chars_of(stem).len();
    if n.len() <= k {
        return false;
    }
    n[k] == '-' || n[k] == '_' || n[k] == '.'
}

/// Whether a file is never shown to a model or changed by it.
pub fn is_sensitive_file(path: &str) -> (r: bool)
    ensures
        r == is_secret(path@),
{
    let name = match file_name(path) {
        None => return false,
        Some(n) => n,
    };
    let n = lowered(chars_of(name.as_str()).as_slice());
    let v = n.as_slice();
    if (reads(v, ".env") || begins(v, ".env.")) && !reads(v, ".env.example") && !reads(
        v,
        ".env.sample",
    ) && !reads(v, ".env.template") {
        return true;
    }
    if !finishes(v, ".pub") && (key_name(v, "id_rsa") || key_name(v, "id_ed25519") || key_name(
        v,
        "id_ecdsa",
    ) || key_name(v, "id_dsa")) {
        return true;
    }
    if reads(v, "credentials") {
        match parent_path(path) {
            Some(p) => match file_name(p.as_str()) {
                Some(d) => {
                    let l = lowered(chars_of(d.as_str()).as_slice());
                    return reads(l.as_slice(), ".aws") || reads(l.as_slice(), ".gcp");
                },
                None => {},
            },
            None => {},
        }
    }
    false
}

/// What the model is told of a file that it may not see.
pub open spec fn secret_message(path: Seq<char>) -> Seq<char> {
    "已拒绝访问敏感文件: "@ + match name_of(path) {
        Some(n) => n,
        None => path,
    } + "（.env / 私钥 / 云凭据不会进入模型上下文）"@
}

/// What the model is told of a file that it may not see.
pub fn sensitive_file_error(path: &str) -> (r: String)
    ensures
        r@ == secret_message(path@),
{
    let name = match file_name(path) {
        Some(n) => n,
        None => text_from(path),
    };
    cat3("已拒绝访问敏感文件: ", name.as_str(), "（.env / 私钥 / 云凭据不会进入模型上下文）")
}

// ---------------------------------------------------------------------------
// Reading
// ---------------------------------------------------------------------------

/// A line as it is shown, cut where it is long.
pub open spec fn line_body(line: Seq<char>) -> Seq<char> {
    if line.len() > MAX_LINE_CHARS {
        line.take(MAX_LINE_CHARS as int) + " [...本行已截断，共 "@ + decimal(line.len()) + " 字符]"@
    } else {
        line
    }
}

/// A line behind its number.
pub open spec fn row(v: Seq<Seq<char>>, i: int) -> Seq<char> {
    decimal((i + 1) as nat) + "\t"@ + line_body(v[i])
}

/// The lines from `start` up to `end`, each behind its number.
pub open spec fn rows_between(v: Seq<Seq<char>>, start: int, end: int) -> Seq<Seq<char>>
    decreases end - start,
{
    if end <= start {
        Seq::empty()
    } else {
        rows_between(v, start, end - 1).push(row(v, end - 1))
    }
}

/// Where a view that begins at `start` ends, if it holds the lines up to `i`
/// with `used` characters: after `limit` lines, or before the line with which
/// it would be too long. The first line is always shown.
pub open spec fn view_end(v: Seq<Seq<char>>, start: int, i: int, limit: int, used: int) -> int
    decreases v.len() - i,
{
    if i >= v.len() || i - start >= limit {
        i
    } else {
        let n = row(v, i).len() as int;
        if i > start && used + n > MAX_READ_CHARS {
            i
        } else {
            view_end(v, start, i + 1, limit, used + n)
        }
    }
}

/// The first line that is asked for, counted from zero.
pub open spec fn view_start(args: JsonV, total: int) -> int {
    let offset = match number_at(args, "offset"@) {
        Some(n) => if n == 0 {
            1int
        } else {
            n as int
        },
        None => 1int,
    };
    if offset - 1 < total {
        offset - 1
    } else {
        total
    }
}

/// How many lines are asked for.
pub open spec fn view_limit(args: JsonV) -> int {
    match number_at(args, "limit"@) {
        Some(n) => n as int,
        None => MAX_READ_LINES as int,
    }
}

/// What is said of an encoding or a line ending that is not the usual one.
pub open spec fn file_note(d: DocV) -> Seq<char> {
    if d.encoding != FileEncoding::Utf8 || d.line_ending == LineEnding::Crlf {
        "\n\n[文件信息: 编码="@ + d.encoding.label_text() + (if d.line_ending == LineEnding::Crlf {
            ", 行尾=CRLF（已转为 LF 显示，写回时还原）"@
        } else {
            Seq::empty()
        }) + "]"@
    } else {
        Seq::empty()
    }
}

/// What the model sees of a document, and whether it asked for the whole and
/// did not get it.
pub open spec fn read_view(args: JsonV, d: DocV) -> (Seq<char>, bool) {
    if d.text.len() == 0 {
        ("（空文件）"@, false)
    } else {
        let v = lines(d.text);
        let total = v.len() as int;
        let start = view_start(args, total);
        let end = view_end(v, start, start, view_limit(args), 0);
        let body = join(rows_between(v, start, end), "\n"@);
        let cut = cut_note(start, end, total);
        let warning = if d.lossy {
            "\n[警告: 解码存在替换字符，编码识别可能有误]"@
        } else {
            Seq::empty()
        };
        let paged = member(args, "offset"@) is Some || member(args, "limit"@) is Some;
        (body + cut + file_note(d) + warning, !paged && end < total)
    }
}

/// What a picture is called in a note.
pub open spec fn picture_label(mime: Seq<char>) -> Seq<char> {
    if mime == "image/png"@ {
        "PNG"@
    } else if mime == "image/jpeg"@ {
        "JPEG"@
    } else if mime == "image/gif"@ {
        "GIF"@
    } else if mime == "image/webp"@ {
        "WebP"@
    } else {
        mime
    }
}

/// What the model sees of a file, and whether that is less than it asked for;
/// or why it sees nothing.
pub open spec fn read_result(args: JsonV, bytes: Seq<u8>) -> Result<(Seq<char>, bool), Seq<char>> {
    match document(bytes) {
        Ok(d) => Ok(read_view(args, d)),
        Err(e) => match picture_kind(bytes) {
            Some(m) => Err(
                "这是 "@ + picture_label(m) + " 图片，请改用 ReadMediaFile 读取（当前模型需支持图片输入）"@,
            ),
            None => Err(e),
        },
    }
}

fn show_row(line: &[char], n: u64) -> (r: Vec<char>)
    ensures
        r@ == decimal(n as nat) + "\t"@ + line_body(line@),
{
    let mut out = chars_of(number_text(n).as_str());
    push_text(&mut out, "\t");
    let len: usize = line.len();
    if len > MAX_LINE_CHARS {
        let head = slice_subrange(line, 0, MAX_LINE_CHARS);
        push_all(&mut out, head);
        push_text(&mut out, " [...本行已截断，共 ");
        push_text(&mut out, number_text(len as u64).as_str());
        push_text(&mut out, " 字符]");
        proof {
            assert(head@ =~= line@.take(MAX_LINE_CHARS as int));
            assert(out@ =~= decimal(n as nat) + "\t"@ + line_body(line@));
        }
    } else {
        push_all(&mut out, line);
    }
    out
}

fn push_note(out: &mut Vec<char>, d: &TextDocument)
    ensures
        final(out)@ == old(out)@ + file_note(d@),
{
    let ghost before = out@;
    let crlf = d.line_ending == LineEnding::Crlf;
    if d.encoding != FileEncoding::Utf8 || crlf {
        push_text(out, "\n\n[文件信息: 编码=");
        push_text(out, d.encoding.label());
        if crlf {
            push_text(out, ", 行尾=CRLF（已转为 LF 显示，写回时还原）");
        }
        push_text(out, "]");
    }
    proof {
        assert(out@ =~= before + file_note(d@));
    }
}

/// The lines of a view that begins at `start`, and where it ends.
fn take_view(all: &[Vec<char>], start: usize, limit: u64) -> (r: (Vec<Vec<char>>, usize))
    requires
        start <= all@.len(),
    ensures
        r.1 == view_end(rows(all@), start as int, start as int, limit as int, 0),
        start <= r.1 <= all@.len(),
        rows(r.0@) == rows_between(rows(all@), start as int, r.1 as int),
{
    let ghost v = rows(all@);
    let total: usize = all.len();
    let mut shown: Vec<Vec<char>> = Vec::new();
    let mut used: usize = 0;
    let mut end: usize = start;
    let ghost stop = view_end(v, start as int, start as int, limit as int, 0);
    proof {
        assert(rows(shown@) =~= rows_between(v, start as int, start as int));
    }
    while end < total && ((end - start) as u64) < limit
        invariant
            v == rows(all@),
            total == all@.len(),
            start <= end <= total,
            end == start ==> used == 0,
            stop == view_end(v, start as int, start as int, limit as int, 0),
            stop == view_end(v, start as int, end as int, limit as int, used as int),
            rows(shown@) == rows_between(v, start as int, end as int),
        decreases total - end,
    {
        let r = show_row(all[end].as_slice(), end as u64 + 1);
        let n: usize = r.len();
        proof {
            assert(v[end as int] == all@[end as int]@);
            assert(r@ == row(v, end as int));
        }
        if end > start && (used > MAX_READ_CHARS || n > MAX_READ_CHARS - used) {
            return (shown, end);
        }
        let ghost before = rows(shown@);
        let ghost rv = r@;
        used = used + n;
        shown.push(r);
        proof {
            assert(rows(shown@) =~= before.push(rv));
        }
        end = end + 1;
    }
    (shown, end)
}

/// What is said when a view ends before the document does.
pub open spec fn cut_note(start: int, end: int, total: int) -> Seq<char> {
    if end < total {
        "\n\n[已截断: 显示 "@ + decimal((start + 1) as nat) + "-"@ + decimal(end as nat) + " 行，共 "@
            + decimal(total as nat) + " 行；用 offset 参数继续读取]"@
    } else {
        Seq::empty()
    }
}

fn push_cut(out: &mut Vec<char>, start: usize, end: usize, total: usize)
    requires
        start <= end,
    ensures
        final(out)@ == old(out)@ + cut_note(start as int, end as int, total as int),
{
    let ghost before = out@;
    if end < total {
        push_text(out, "\n\n[已截断: 显示 ");
        push_text(out, number_text(start as u64 + 1).as_str());
        push_text(out, "-");
        push_text(out, number_text(end as u64).as_str());
        push_text(out, " 行，共 ");
        push_text(out, number_text(total as u64).as_str());
        push_text(out, " 行；用 offset 参数继续读取]");
    }
    proof {
        assert(out@ =~= before + cut_note(start as int, end as int, total as int));
    }
}

/// Shows a document to the model. The second part of the result says whether
/// the model asked for the whole and did not get it.
pub fn show_document(args: &Json, d: &TextDocument) -> (r: (String, bool))
    ensures
        (r.0@, r.1) == read_view(args.says(), d@),
{
    let text = chars_of(d.text.as_str());
    if text.len() == 0 {
        return (text_from("（空文件）"), false);
    }
    let all = lines_of(text.as_slice());
    let total: usize = all.len();
    let offset: u64 = match args.u64_at("offset") {
        Some(n) => if n == 0 {
            1
        } else {
            n
        },
        None => 1,
    };
    let limit: u64 = match args.u64_at("limit") {
        Some(n) => n,
        None => MAX_READ_LINES,
    };
    let start: usize = if offset - 1 < total as u64 {
        (offset - 1) as usize
    } else {
        total
    };
    proof {
        assert(rows(all@).len() == total);
        assert(start == view_start(args.says(), total as int));
        assert(limit == view_limit(args.says()));
    }
    let (shown, end) = take_view(all.as_slice(), start, limit);
    let mut out = joined(shown.as_slice(), "\n");
    push_cut(&mut out, start, end, total);
    push_note(&mut out, d);
    if d.lossy {
        push_text(&mut out, "\n[警告: 解码存在替换字符，编码识别可能有误]");
    }
    let paged = args.get("offset").is_some() || args.get("limit").is_some();
    proof {
        assert(out@ =~= read_view(args.says(), d@).0);
    }
    (string_of(out.as_slice()), !paged && end < total)
}

/// Shows a file to the model. The second part of the result says whether the
/// model asked for the whole and did not get it.
pub fn read_file(args: &Json, bytes: &[u8]) -> (r: Result<(String, bool), String>)
    ensures
        match r {
            Ok(p) => read_result(args.says(), bytes@) == Ok::<(Seq<char>, bool), Seq<char>>(
                (p.0@, p.1),
            ),
            Err(e) => read_result(args.says(), bytes@) == Err::<(Seq<char>, bool), Seq<char>>(e@),
        },
{
    match decode(bytes) {
        Ok(d) => Ok(show_document(args, &d)),
        Err(e) => match sniff_image(bytes) {
            Some(m) => {
                let label = if str_eq(m, "image/png") {
                    "PNG"
                } else if str_eq(m, "image/jpeg") {
                    "JPEG"
                } else if str_eq(m, "image/gif") {
                    "GIF"
                } else if str_eq(m, "image/webp") {
                    "WebP"
                } else {
                    m
                };
                Err(cat3("这是 ", label, " 图片，请改用 ReadMediaFile 读取（当前模型需支持图片输入）"))
            },
            None => Err(e),
        },
    }
}

/// What the model is told when a file cannot be read. `names` are those of the
/// files in its directory, where the directory can be listed.
pub open spec fn read_failure(
    path: Seq<char>,
    full: Seq<char>,
    not_found: bool,
    names: Option<Seq<Seq<char>>>,
    error: Seq<char>,
) -> Seq<char> {
    if !not_found {
        "读取失败 "@ + full + ": "@ + error
    } else {
        "文件不存在: "@ + path + match (parent_of(full), names) {
            (Some(dir), Some(v)) => {
                let first = if v.len() > MAX_LISTED_NAMES {
                    sorted(v).take(MAX_LISTED_NAMES as int)
                } else {
                    sorted(v)
                };
                if v.len() > 0 {
                    "。目录 "@ + dir + " 下有: "@ + join(first, ", "@)
                } else {
                    Seq::empty()
                }
            },
            _ => Seq::empty(),
        }
    }
}

/// What an optional list of names says.
pub open spec fn names_say(v: Option<&[String]>) -> Option<Seq<Seq<char>>> {
    match v {
        Some(l) => Some(texts(l@)),
        None => None,
    }
}

/// Says why a file cannot be read.
pub fn read_io_error(
    path: &str,
    full: &str,
    not_found: bool,
    names: Option<&[String]>,
    error: &str,
) -> (r: String)
    ensures
        r@ == read_failure(path@, full@, not_found, names_say(names), error@),
{
    if !not_found {
        return four("读取失败 ", full, ": ", error);
    }
    let mut out = chars_of("文件不存在: ");
    push_text(&mut out, path);
    let ghost head = out@;
    match (parent_path(full), names) {
        (Some(dir), Some(v)) => {
            let mut list: Vec<Vec<char>> = Vec::new();
            let ghost all = texts(v@);
            proof {
                assert(rows(list@) =~= all.take(0));
            }
            for i in 0..v.len()
                invariant
                    all == texts(v@),
                    rows(list@) == all.take(i as int),
            {
                let ghost before = rows(list@);
                list.push(chars_of(v[i].as_str()));
                proof {
                    assert(rows(list@) =~= before.push(all[i as int]));
                    assert(all.take(i as int + 1) =~= before.push(all[i as int]));
                }
            }
            proof {
                assert(all.take(v@.len() as int) =~= all);
                crate::order::lemma_sorted(all);
            }
            if v.len() > 0 {
                let ordered = sort_texts(list.as_slice());
                proof {
                    assert(rows(ordered@).len() == ordered@.len());
                }
                let n: usize = if ordered.len() > MAX_LISTED_NAMES {
                    MAX_LISTED_NAMES
                } else {
                    ordered.len()
                };
                let first = slice_subrange(ordered.as_slice(), 0, n);
                proof {
                    assert(rows(first@) =~= rows(ordered@).take(n as int));
                    assert(rows(ordered@).take(ordered@.len() as int) =~= rows(ordered@));
                }
                push_text(&mut out, "。目录 ");
                push_text(&mut out, dir.as_str());
                push_text(&mut out, " 下有: ");
                push_all(&mut out, joined(first, ", ").as_slice());
            }
            proof {
                assert(out@ =~= read_failure(path@, full@, true, names_say(names), error@));
            }
        },
        _ => {
            proof {
                assert(head + Seq::<char>::empty() =~= head);
            }
        },
    }
    string_of(out.as_slice())
}

// ---------------------------------------------------------------------------
// Freshness
// ---------------------------------------------------------------------------

/// A number that bytes have in common only by chance, as a new
/// `std::hash::DefaultHasher` gives it.
pub open spec fn fingerprint(bytes: Seq<u8>) -> u64 {
    DefaultHasher::spec_finish(Seq::<Seq<u8>>::empty().push(bytes))
}

fn hash_bytes(bytes: &[u8]) -> (r: u64)
    ensures
        r == fingerprint(bytes@),
{
    let mut hasher = DefaultHasher::new();
    hasher.write(bytes);
    hasher.finish()
}

/// What a file was like when the model saw it.
#[derive(Clone, Copy, Debug, PartialEq, Eq, Structural)]
pub struct ReadState {
    /// When the file was changed, in nanoseconds since 1970.
    pub mtime: Option<i128>,
    pub size: u64,
    pub hash: u64,
    /// Whether the model asked for the whole and did not get it.
    pub partial: bool,
}

/// The state of a file that holds these bytes.
pub open spec fn state_of(bytes: Seq<u8>, mtime: Option<i128>, partial: bool) -> ReadState {
    ReadState { mtime, size: bytes.len() as u64, hash: fingerprint(bytes), partial }
}

/// Notes what a file is like.
pub fn record_read_state(bytes: &[u8], mtime: Option<i128>, partial: bool) -> (r: ReadState)
    ensures
        r == state_of(bytes@, mtime, partial),
{
    ReadState { mtime, size: bytes.len() as u64, hash: hash_bytes(bytes), partial }
}

/// What the file system says of a file before it is written.
pub struct FileNow {
    pub exists: bool,
    /// When it was changed and how long it is, or the error.
    pub meta: Result<(Option<i128>, u64), String>,
    /// What it holds, or the error.
    pub bytes: Result<Vec<u8>, String>,
}

/// Whether a file may be written: the model must have seen it as it is. The
/// state that is to be noted comes back where the file was touched but holds
/// the same.
pub open spec fn freshness(
    seen: Option<ReadState>,
    full: Seq<char>,
    verb: Seq<char>,
    now: FileNow,
) -> Result<Option<ReadState>, Seq<char>> {
    if !now.exists {
        Ok(None)
    } else {
        match seen {
            None => Err("文件已存在且本会话尚未读过；为避免覆盖他人改动，请先 Read 再"@ + verb),
            Some(s) => if s.partial {
                Err("上次 Read 是不完整视图（输出被截断）；请用 offset/limit 分页读完或完整 Read 后再改"@)
            } else {
                match now.meta {
                    Err(e) => Err("读取文件状态失败 "@ + full + ": "@ + e@),
                    Ok((mtime, size)) => if mtime == s.mtime && size == s.size {
                        Ok(None)
                    } else {
                        match now.bytes {
                            Err(e) => Err("读取失败 "@ + full + ": "@ + e@),
                            Ok(b) => if fingerprint(b@) == s.hash {
                                Ok(Some(state_of(b@, mtime, false)))
                            } else {
                                Err("文件自上次 Read 后已被外部修改，请先重新 Read 再改（避免覆盖他人改动）"@)
                            },
                        }
                    },
                }
            },
        }
    }
}

/// Decides whether a file may be written.
pub fn check_fresh(seen: Option<ReadState>, full: &str, verb: &str, now: &FileNow) -> (r: Result<
    Option<ReadState>,
    String,
>)
    ensures
        match r {
            Ok(s) => freshness(seen, full@, verb@, *now) == Ok::<Option<ReadState>, Seq<char>>(s),
            Err(e) => freshness(seen, full@, verb@, *now) == Err::<Option<ReadState>, Seq<char>>(
                e@,
            ),
        },
{
    if !now.exists {
        return Ok(None);
    }
    let s = match seen {
        None => {
            return Err(cat("文件已存在且本会话尚未读过；为避免覆盖他人改动，请先 Read 再", verb));
        },
        Some(s) => s,
    };
    if s.partial {
        return Err(
            text_from("上次 Read 是不完整视图（输出被截断）；请用 offset/limit 分页读完或完整 Read 后再改"),
        );
    }
    let (mtime, size) = match &now.meta {
        Err(e) => return Err(four("读取文件状态失败 ", full, ": ", e.as_str())),
        Ok(p) => (p.0, p.1),
    };
    let same_time = match (mtime, s.mtime) {
        (None, None) => true,
        (Some(a), Some(b)) => a == b,
        _ => false,
    };
    if same_time && size == s.size {
        return Ok(None);
    }
    match &now.bytes {
        Err(e) => Err(four("读取失败 ", full, ": ", e.as_str())),
        Ok(b) => {
            if hash_bytes(b.as_slice()) == s.hash {
                Ok(Some(record_read_state(b.as_slice(), mtime, false)))
            } else {
                Err(text_from("文件自上次 Read 后已被外部修改，请先重新 Read 再改（避免覆盖他人改动）"))
            }
        },
    }
}

// ---------------------------------------------------------------------------
// Writing
// ---------------------------------------------------------------------------

/// A text that a call must name.
pub open spec fn needed(args: JsonV, key: Seq<char>) -> Result<Seq<char>, Seq<char>> {
    match text_at(args, key) {
        Some(t) => Ok(t),
        None => Err("缺少参数 "@ + key),
    }
}

/// Reads a text that a call must name.
pub fn need(args: &Json, key: &str) -> (r: Result<String, String>)
    ensures
        outcome(r) == needed(args.says(), key@),
{
    match args.str_at(key) {
        Some(t) => Ok(t),
        None => Err(cat("缺少参数 ", key)),
    }
}

/// How a file is written: as it was encoded, where that is known, else as
/// UTF-8 with LF.
pub open spec fn written_form(existing: Option<Seq<u8>>) -> (FileEncoding, bool, LineEnding) {
    match existing {
        Some(b) => match document(b) {
            Ok(d) => (d.encoding, d.bom, d.line_ending),
            Err(_) => (FileEncoding::Utf8, false, LineEnding::Lf),
        },
        None => (FileEncoding::Utf8, false, LineEnding::Lf),
    }
}

/// What is said of how a file was written.
pub open spec fn written_note(existing: Option<Seq<u8>>) -> Seq<char> {
    match existing {
        Some(b) => match document(b) {
            Ok(d) => {
                let foreign = d.encoding != FileEncoding::Utf8;
                let crlf = d.line_ending == LineEnding::Crlf;
                if foreign && crlf {
                    "（保留原编码 "@ + d.encoding.label_text() + " / CRLF）"@
                } else if foreign {
                    "（保留原编码 "@ + d.encoding.label_text() + "）"@
                } else if crlf {
                    "（保留原行尾 CRLF）"@
                } else {
                    Seq::empty()
                }
            },
            Err(_) => "（原文件编码无法识别，已按 UTF-8 覆盖）"@,
        },
        None => Seq::empty(),
    }
}

/// What is going to be written, and what the model is told then.
#[derive(Debug)]
pub struct Writing {
    /// The file's bytes, or why the text cannot be written.
    pub bytes: Result<Vec<u8>, String>,
    /// The text before, its lines ending in LF.
    pub before: String,
    /// The text after, its lines ending in LF.
    pub after: String,
    pub output: String,
}

/// What a writing's bytes say.
pub open spec fn bytes_say(b: Result<Vec<u8>, String>) -> Result<Seq<u8>, Seq<char>> {
    match b {
        Ok(v) => Ok(v@),
        Err(e) => Err(e@),
    }
}

/// The text of a file that may be missing.
pub open spec fn old_text(existing: Option<Seq<u8>>) -> Seq<char> {
    match existing {
        Some(b) => view_of(b),
        None => Seq::empty(),
    }
}

/// What optional bytes say.
pub open spec fn bytes_or(b: Option<&[u8]>) -> Option<Seq<u8>> {
    match b {
        Some(v) => Some(v@),
        None => None,
    }
}

/// Whether a writing puts a text in a file, in the file's own form.
pub open spec fn writes(
    w: Writing,
    path: Seq<char>,
    content: Seq<char>,
    existing: Option<Seq<u8>>,
) -> bool {
    let (encoding, bom, ending) = written_form(existing);
    &&& bytes_say(w.bytes) == bytes_of(content, encoding, bom, ending)
    &&& w.before@ == old_text(existing)
    &&& w.after@ == replace(content, "\r\n"@, "\n"@)
    &&& w.bytes is Ok ==> w.output@ == "已写入 "@ + path + "（"@ + decimal(
        bytes_of(content, encoding, bom, ending)->Ok_0.len(),
    ) + " 字节）"@ + written_note(existing)
    &&& w.bytes is Err ==> w.output@.len() == 0
}

fn form_of(existing: Option<&[u8]>) -> (r: (FileEncoding, bool, LineEnding, String))
    ensures
        (r.0, r.1, r.2) == written_form(bytes_or(existing)),
        r.3@ == written_note(bytes_or(existing)),
{
    proof {
        reveal_strlit("");
    }
    match existing {
        Some(b) => match decode(b) {
            Ok(d) => {
                let foreign = d.encoding != FileEncoding::Utf8;
                let crlf = d.line_ending == LineEnding::Crlf;
                let note = if foreign && crlf {
                    cat3("（保留原编码 ", d.encoding.label(), " / CRLF）")
                } else if foreign {
                    cat3("（保留原编码 ", d.encoding.label(), "）")
                } else if crlf {
                    text_from("（保留原行尾 CRLF）")
                } else {
                    String::new()
                };
                proof {
                    if !foreign && !crlf {
                        assert(note@ =~= Seq::<char>::empty());
                    }
                }
                (d.encoding, d.bom, d.line_ending, note)
            },
            Err(_e) => (
                FileEncoding::Utf8,
                false,
                LineEnding::Lf,
                text_from("（原文件编码无法识别，已按 UTF-8 覆盖）"),
            ),
        },
        None => {
            let note = String::new();
            proof {
                assert(note@ =~= Seq::<char>::empty());
            }
            (FileEncoding::Utf8, false, LineEnding::Lf, note)
        },
    }
}

/// Prepares the writing of a whole file. `existing` is what it holds now, if
/// it exists.
pub fn write_file(path: &str, content: &str, existing: Option<&[u8]>) -> (r: Writing)
    ensures
        writes(r, path@, content@, bytes_or(existing)),
{
    let (encoding, bom, ending, note) = form_of(existing);
    let before = match existing {
        Some(b) => decoded_view(b),
        None => String::new(),
    };
    proof {
        if existing is None {
            assert(before@ =~= Seq::<char>::empty());
        }
    }
    let crlf = chars_of("\r\n");
    let lf = chars_of("\n");
    proof {
        reveal_strlit("\r\n");
    }
    let text = chars_of(content);
    let after = string_of(replaced(text.as_slice(), crlf.as_slice(), lf.as_slice()).as_slice());
    let bytes = encode(content, encoding, bom, ending);
    let output = match &bytes {
        Ok(b) => {
            let n: usize = b.len();
            let mut out = chars_of("已写入 ");
            push_text(&mut out, path);
            push_text(&mut out, "（");
            push_text(&mut out, number_text(n as u64).as_str());
            push_text(&mut out, " 字节）");
            push_text(&mut out, note.as_str());
            string_of(out.as_slice())
        },
        Err(_e) => String::new(),
    };
    Writing { bytes, before, after, output }
}

// ---------------------------------------------------------------------------
// Editing
// ---------------------------------------------------------------------------

/// A call of the editing tool.
#[derive(Debug, PartialEq)]
pub struct EditCall {
    pub path: String,
    pub old_string: String,
    pub new_string: String,
    pub replace_all: bool,
}

/// What an `EditCall` says.
#[verifier::ext_equal]
pub struct EditCallV {
    pub path: Seq<char>,
    pub old_string: Seq<char>,
    pub new_string: Seq<char>,
    pub replace_all: bool,
}

impl View for EditCall {
    type V = EditCallV;

    open spec fn view(&self) -> EditCallV {
        EditCallV {
            path: self.path@,
            old_string: self.old_string@,
            new_string: self.new_string@,
            replace_all: self.replace_all,
        }
    }
}

/// The call that arguments make, or what is wrong with them.
pub open spec fn edit_call(args: JsonV) -> Result<EditCallV, Seq<char>> {
    match (needed(args, "path"@), needed(args, "old_string"@), needed(args, "new_string"@)) {
        (Err(e), _, _) => Err(e),
        (_, Err(e), _) => Err(e),
        (_, _, Err(e)) => Err(e),
        (Ok(path), Ok(old_string), Ok(new_string)) => if old_string.len() == 0 {
            Err("old_string 不能为空；要创建文件请用 Write"@)
        } else if old_string == new_string {
            Err("old_string 与 new_string 相同，无需修改"@)
        } else {
            Ok(
                EditCallV {
                    path,
                    old_string,
                    new_string,
                    replace_all: flag_at(args, "replace_all"@) == Some(true),
                },
            )
        },
    }
}

/// Reads the arguments of the editing tool.
pub fn parse_edit(args: &Json) -> (r: Result<EditCall, String>)
    ensures
        match r {
            Ok(c) => edit_call(args.says()) == Ok::<EditCallV, Seq<char>>(c@),
            Err(e) => edit_call(args.says()) == Err::<EditCallV, Seq<char>>(e@),
        },
{
    let path = match need(args, "path") {
        Ok(t) => t,
        Err(e) => return Err(e),
    };
    let old_string = match need(args, "old_string") {
        Ok(t) => t,
        Err(e) => return Err(e),
    };
    let new_string = match need(args, "new_string") {
        Ok(t) => t,
        Err(e) => return Err(e),
    };
    if chars_of(old_string.as_str()).len() == 0 {
        return Err(text_from("old_string 不能为空；要创建文件请用 Write"));
    }
    if str_eq(old_string.as_str(), new_string.as_str()) {
        return Err(text_from("old_string 与 new_string 相同，无需修改"));
    }
    let replace_all = match args.bool_at("replace_all") {
        Some(b) => b,
        None => false,
    };
    Ok(EditCall { path, old_string, new_string, replace_all })
}

/// What the model is told when the text to be replaced is not found, or too
/// often.
pub open spec fn match_message(e: EditMatchError, path: Seq<char>, ending: LineEnding) -> Seq<char> {
    match e {
        EditMatchError::NotFound => "old_string 在 "@ + path
            + " 中未找到。请先用 Read 确认文件当前内容（注意缩进与换行需完全一致）。"@ + if ending == LineEnding::Crlf {
            "该文件为 CRLF 行尾，Read 输出已转为 LF，old_string 请用 LF 换行。"@
        } else {
            Seq::empty()
        },
        EditMatchError::NotUnique { count } => "old_string 在 "@ + path + " 中出现 "@ + decimal(
            count as nat,
        ) + " 次，无法唯一定位。请扩大 old_string 范围使其唯一；如需全部替换，设 replace_all=true。"@,
    }
}

/// What the model is told of an edit.
pub open spec fn edit_report(c: EditCallV, o: OutcomeV) -> Seq<char> {
    if c.replace_all {
        "已修改 "@ + c.path + "（替换 "@ + decimal(o.replaced) + " 处）"@
    } else {
        match o.tier_note {
            Some(n) => "已修改 "@ + c.path + "（"@ + n + "）"@,
            None => "已修改 "@ + c.path,
        }
    }
}

/// Whether a writing makes an edit of a document, in the document's own form.
pub open spec fn edits(w: Writing, c: EditCallV, d: DocV, o: OutcomeV) -> bool {
    &&& bytes_say(w.bytes) == bytes_of(o.after, d.encoding, d.bom, d.line_ending)
    &&& w.before@ == d.text
    &&& w.after@ == o.after
    &&& w.output@ == edit_report(c, o)
}

fn say_match(e: &EditMatchError, path: &str, ending: LineEnding) -> (r: String)
    ensures
        r@ == match_message(*e, path@, ending),
{
    let mut out = chars_of("old_string 在 ");
    push_text(&mut out, path);
    match e {
        EditMatchError::NotFound => {
            push_text(&mut out, " 中未找到。请先用 Read 确认文件当前内容（注意缩进与换行需完全一致）。");
            if ending == LineEnding::Crlf {
                push_text(&mut out, "该文件为 CRLF 行尾，Read 输出已转为 LF，old_string 请用 LF 换行。");
            }
        },
        EditMatchError::NotUnique { count } => {
            push_text(&mut out, " 中出现 ");
            push_text(&mut out, number_text(*count as u64).as_str());
            push_text(
                &mut out,
                " 次，无法唯一定位。请扩大 old_string 范围使其唯一；如需全部替换，设 replace_all=true。",
            );
        },
    }
    proof {
        assert(out@ =~= match_message(*e, path@, ending));
    }
    string_of(out.as_slice())
}

/// Prepares an edit of a file that holds these bytes.
pub fn edit_file(c: &EditCall, bytes: &[u8]) -> (r: Result<Writing, String>)
    requires
        c.old_string@.len() > 0,
    ensures
        match document(bytes@) {
            Err(e) => r is Err && r->Err_0@ == e,
            Ok(d) => match edit_of(d.text, c.old_string@, c.new_string@, c.replace_all) {
                Err(e) => r is Err && r->Err_0@ == match_message(e, c.path@, d.line_ending),
                Ok(o) => r is Ok && edits(r->Ok_0, c@, d, o),
            },
        },
{
    let d = match decode(bytes) {
        Ok(d) => d,
        Err(e) => return Err(e),
    };
    let o = match compute_edit(
        d.text.as_str(),
        c.old_string.as_str(),
        c.new_string.as_str(),
        c.replace_all,
    ) {
        Ok(o) => o,
        Err(e) => return Err(say_match(&e, c.path.as_str(), d.line_ending)),
    };
    let encoded = encode(o.after.as_str(), d.encoding, d.bom, d.line_ending);
    let output = if c.replace_all {
        cat5("已修改 ", c.path.as_str(), "（替换 ", number_text(o.replaced as u64).as_str(), " 处）")
    } else {
        match o.tier_note {
            Some(n) => cat5("已修改 ", c.path.as_str(), "（", n, "）"),
            None => cat("已修改 ", c.path.as_str()),
        }
    };
    Ok(Writing { bytes: encoded, before: d.text, after: o.after, output })
}

/// What is said when bytes cannot be put into a file.
pub fn write_failure(full: &str, e: &str) -> (r: String)
    ensures
        r@ == "写入失败 "@ + full@ + ": "@ + e@,
{
    four("写入失败 ", full, ": ", e)
}

// ---------------------------------------------------------------------------
// Laws
// ---------------------------------------------------------------------------

/// A path that is not allowed outside the workspace leads into it, or into a
/// directory for temporary files: no other access is granted.
pub proof fn law_access_is_confined(
    found: Result<Seq<char>, BoundFailureV>,
    path: Seq<char>,
    tmp: bool,
    access: FsAccess,
)
    ensures
        granted(found, path, tmp, false, access) is Ok ==> found is Ok || tmp,
        found == Err::<Seq<char>, BoundFailureV>(BoundFailureV::DanglingSymlink) ==> granted(
            found,
            path,
            tmp,
            true,
            access,
        ) is Err,
{
}

/// Where a path is found to lie in the workspace, its directory does, and what
/// it names is no link out of it.
pub proof fn law_found_lies_inside(
    cwd: Seq<char>,
    path: Seq<char>,
    d: Dirs,
    t: Target,
    resolved: Seq<char>,
)
    requires
        located(cwd, path, d) == Ok::<Seq<char>, BoundFailureV>(resolved),
        confined(resolved, d.cwd_real->Ok_0@, t) is Ok,
    ensures
        below(d.parent_real->Ok_0@, d.cwd_real->Ok_0@) is Some,
        (t.is_symlink || t.exists) ==> t.real_path is Ok && below(
            t.real_path->Ok_0@,
            d.cwd_real->Ok_0@,
        ) is Some,
{
}

/// A file that the model has not seen as it is cannot be overwritten: where a
/// file that exists may be written, the model saw the whole of it, and it is as
/// old and as long as then or holds bytes of the same fingerprint.
pub proof fn law_no_blind_overwrite(
    seen: Option<ReadState>,
    full: Seq<char>,
    verb: Seq<char>,
    now: FileNow,
)
    requires
        now.exists,
        freshness(seen, full, verb, now) is Ok,
    ensures
        seen is Some,
        !seen->0.partial,
        now.meta is Ok,
        now.meta->Ok_0 == (seen->0.mtime, seen->0.size) || (now.bytes is Ok && fingerprint(
            now.bytes->Ok_0@,
        ) == seen->0.hash),
{
}

/// A file that the model read whole, or wrote, may be written as long as
/// nobody else changes what it holds, even where its time changes.
pub proof fn law_seen_may_be_written(
    bytes: Seq<u8>,
    mtime: Option<i128>,
    full: Seq<char>,
    verb: Seq<char>,
    now: FileNow,
)
    requires
        now.meta is Ok,
        now.bytes is Ok,
        now.bytes->Ok_0@ == bytes,
    ensures
        freshness(Some(state_of(bytes, mtime, false)), full, verb, now) is Ok,
{
}

proof fn lemma_view_end(v: Seq<Seq<char>>, start: int, i: int, limit: int, used: int)
    requires
        0 <= start <= i <= v.len(),
        0 <= limit,
        i - start <= limit,
    ensures
        i <= view_end(v, start, i, limit, used) <= v.len(),
        view_end(v, start, i, limit, used) - start <= limit,
    decreases v.len() - i,
{
    if i < v.len() && i - start < limit {
        lemma_view_end(v, start, i + 1, limit, used + row(v, i).len() as int);
    }
}

/// Reading on where a view ended passes over no line and shows none twice: a
/// view begins where it is asked to, holds at most as many lines as are asked
/// for, and at least one where there is one left.
pub proof fn law_views_progress(v: Seq<Seq<char>>, start: int, limit: int)
    requires
        0 <= start < v.len(),
        0 < limit,
    ensures
        start < view_end(v, start, start, limit, 0) <= v.len(),
        view_end(v, start, start, limit, 0) <= start + limit,
{
    lemma_view_end(v, start, start + 1, limit, row(v, start).len() as int);
}

/// What a view shows of a document: a row for each line from the first that was
/// asked for to where the view ends, in order and behind its number, counted
/// from one; a line of up to two thousand characters is shown whole. Behind the
/// rows stand only notes, and none where the whole of an ordinary file is shown.
pub proof fn law_view_shows_the_lines(args: JsonV, d: DocV)
    requires
        d.text.len() > 0,
    ensures
        ({
            let v = lines(d.text);
            let total = v.len() as int;
            let first = match number_at(args, "offset"@) {
                Some(n) => if n == 0 {
                    0int
                } else {
                    n - 1
                },
                None => 0int,
            };
            let start = if first < total {
                first
            } else {
                total
            };
            exists|rows: Seq<Seq<char>>, notes: Seq<char>|
                read_view(args, d).0 == #[trigger] (join(rows, "\n"@) + notes) && shows_rows(
                    v,
                    start,
                    rows,
                ) && (number_at(args, "limit"@) matches Some(n) ==> rows.len() <= n) && (
                start + rows.len() == total && d.encoding == FileEncoding::Utf8 && d.line_ending
                    == LineEnding::Lf && !d.lossy ==> notes.len() == 0)
        }),
{
    let v = lines(d.text);
    let total = v.len() as int;
    let start = view_start(args, total);
    let first = match number_at(args, "offset"@) {
        Some(n) => if n == 0 {
            0int
        } else {
            n - 1
        },
        None => 0int,
    };
    assert(start == if first < total {
        first
    } else {
        total
    });
    let end = view_end(v, start, start, view_limit(args), 0);
    lemma_view_end(v, start, start, view_limit(args), 0);
    let rows = rows_between(v, start, end);
    lemma_rows_between(v, start, end);
    let warning = if d.lossy {
        "\n[警告: 解码存在替换字符，编码识别可能有误]"@
    } else {
        Seq::empty()
    };
    let notes = cut_note(start, end, total) + file_note(d) + warning;
    assert(join(rows, "\n"@) + cut_note(start, end, total) + file_note(d) + warning =~= join(
        rows,
        "\n"@,
    ) + notes);
    assert(shows_rows(v, start, rows));
    if start + rows.len() == total && d.encoding == FileEncoding::Utf8 && d.line_ending
        == LineEnding::Lf && !d.lossy {
        assert(end == total);
        assert(cut_note(start, end, total).len() == 0);
        assert(file_note(d).len() == 0);
        assert(notes.len() == 0);
    }
    assert(number_at(args, "limit"@) matches Some(n) ==> rows.len() <= n);
    assert(read_view(args, d).0 == join(rows, "\n"@) + notes && shows_rows(v, start, rows));
}

/// Whether rows show the lines from `start` on, each behind its number.
pub open spec fn shows_rows(v: Seq<Seq<char>>, start: int, rows: Seq<Seq<char>>) -> bool {
    &&& start + rows.len() <= v.len()
    &&& forall|k: int|
        0 <= k < rows.len() && v[start + k].len() <= 2000 ==> (#[trigger] rows[k]) == decimal(
            (start + k + 1) as nat,
        ) + "\t"@ + v[start + k]
    &&& forall|k: int|
        0 <= k < rows.len() && v[start + k].len() > 2000 ==> ({
            let shown = decimal((start + k + 1) as nat) + "\t"@ + v[start + k].take(2000);
            (#[trigger] rows[k]).len() > shown.len() && rows[k].take(shown.len() as int) == shown
        })
}

proof fn lemma_rows_between(v: Seq<Seq<char>>, start: int, end: int)
    requires
        0 <= start <= end <= v.len(),
    ensures
        rows_between(v, start, end).len() == end - start,
        shows_rows(v, start, rows_between(v, start, end)),
    decreases end - start,
{
    reveal_strlit(" [...本行已截断，共 ");
    if start < end {
        lemma_rows_between(v, start, end - 1);
        let before = rows_between(v, start, end - 1);
        let rows = rows_between(v, start, end);
        let i = end - 1;
        assert(rows =~= before.push(row(v, i)));
        assert forall|k: int|
            0 <= k < rows.len() && v[start + k].len() <= 2000 implies (#[trigger] rows[k]) == decimal(
            (start + k + 1) as nat,
        ) + "\t"@ + v[start + k] by {
            if k < before.len() {
                assert(rows[k] == before[k]);
            }
        }
        assert forall|k: int| 0 <= k < rows.len() && v[start + k].len() > 2000 implies ({
            let shown = decimal((start + k + 1) as nat) + "\t"@ + v[start + k].take(2000);
            (#[trigger] rows[k]).len() > shown.len() && rows[k].take(shown.len() as int) == shown
        }) by {
            if k < before.len() {
                assert(rows[k] == before[k]);
            } else {
                let shown = decimal((i + 1) as nat) + "\t"@ + v[i].take(2000);
                assert(rows[k] == row(v, i));
                assert(row(v, i).take(shown.len() as int) =~= shown);
            }
        }
    }
}

/// A document of up to two thousand lines whose rows have up to a hundred
/// thousand characters is shown whole to who asks for no part of it.
pub proof fn law_small_document_is_shown_whole(args: JsonV, d: DocV)
    requires
        d.text.len() > 0,
        member(args, "offset"@) is None,
        member(args, "limit"@) is None,
        lines(d.text).len() <= 2000,
        rows_size(lines(d.text), lines(d.text).len() as int) <= 100_000,
    ensures
        ({
            let v = lines(d.text);
            &&& !read_view(args, d).1
            &&& exists|rows: Seq<Seq<char>>, notes: Seq<char>|
                read_view(args, d).0 == #[trigger] (join(rows, "\n"@) + notes) && shows_rows(
                    v,
                    0,
                    rows,
                ) && rows.len() == v.len()
        }),
{
    let v = lines(d.text);
    let total = v.len() as int;
    assert(number_at(args, "offset"@) is None);
    assert(number_at(args, "limit"@) is None);
    lemma_lines_some(d.text);
    assert(view_start(args, total) == 0);
    lemma_view_all(v, 0);
    let rows = rows_between(v, 0, total);
    lemma_rows_between(v, 0, total);
    let warning = if d.lossy {
        "\n[警告: 解码存在替换字符，编码识别可能有误]"@
    } else {
        Seq::empty()
    };
    let notes = cut_note(0, total, total) + file_note(d) + warning;
    assert(join(rows, "\n"@) + cut_note(0, total, total) + file_note(d) + warning =~= join(
        rows,
        "\n"@,
    ) + notes);
    assert(read_view(args, d).0 == join(rows, "\n"@) + notes);
    assert(shows_rows(v, 0, rows));
}

proof fn lemma_lines_some(s: Seq<char>)
    requires
        s.len() > 0,
    ensures
        lines(s).len() > 0,
{
}

/// How many characters the first `n` rows have.
pub open spec fn rows_size(v: Seq<Seq<char>>, n: int) -> nat
    decreases n,
{
    if n <= 0 {
        0
    } else {
        rows_size(v, n - 1) + row(v, n - 1).len()
    }
}

proof fn lemma_view_all(v: Seq<Seq<char>>, i: int)
    requires
        0 <= i <= v.len() <= 2000,
        rows_size(v, v.len() as int) <= 100_000,
    ensures
        view_end(v, 0, i, 2000, rows_size(v, i) as int) == v.len(),
    decreases v.len() - i,
{
    if i < v.len() {
        lemma_rows_size(v, i + 1, v.len() as int);
        lemma_view_all(v, i + 1);
    }
}

proof fn lemma_rows_size(v: Seq<Seq<char>>, i: int, j: int)
    requires
        0 <= i <= j,
    ensures
        rows_size(v, i) <= rows_size(v, j),
    decreases j,
{
    if i < j {
        lemma_rows_size(v, i, j - 1);
    }
}

/// A file that can be read is written in its own encoding, with its own byte
/// order mark and line ending, and any other as UTF-8 with LF; what is written
/// is the text that was given, and the text before is that of the file.
pub proof fn law_writing_keeps_the_form(
    w: Writing,
    path: Seq<char>,
    content: Seq<char>,
    existing: Option<Seq<u8>>,
    d: DocV,
)
    requires
        writes(w, path, content, existing),
    ensures
        existing matches Some(b) ==> (document(b) == Ok::<DocV, Seq<char>>(d) ==> bytes_say(w.bytes)
            == bytes_of(content, d.encoding, d.bom, d.line_ending) && w.before@ == d.text),
        existing is None ==> bytes_say(w.bytes) == bytes_of(
            content,
            FileEncoding::Utf8,
            false,
            LineEnding::Lf,
        ) && w.before@.len() == 0,
        !holds_crlf(content) ==> w.after@ == content,
{
    reveal_strlit("\r\n");
    if !holds_crlf(content) {
        crate::chars::lemma_find_sub_from(content, "\r\n"@, 0);
        match crate::chars::find_sub(content, "\r\n"@) {
            Some(k) => {
                assert(content.subrange(k, k + 2)[0] == content[k]);
                assert(content.subrange(k, k + 2)[1] == content[k + 1]);
                assert(content[k] == '\r' && content[k + 1] == '\n');
            },
            None => {},
        }
    }
}

/// Whether a line of a text ends in CRLF.
pub open spec fn holds_crlf(s: Seq<char>) -> bool {
    exists|k: int| 0 <= k && k + 1 < s.len() && #[trigger] s[k] == '\r' && s[k + 1] == '\n'
}

/// A call of an edit has the path and the two texts that its arguments name,
/// each in its own place, and replaces all exactly where they say so.
pub proof fn law_edit_arguments_are_read(
    args: JsonV,
    path: Seq<char>,
    old_string: Seq<char>,
    new_string: Seq<char>,
)
    requires
        text_at(args, "path"@) == Some(path),
        text_at(args, "old_string"@) == Some(old_string),
        text_at(args, "new_string"@) == Some(new_string),
    ensures
        old_string.len() > 0 && old_string != new_string ==> (edit_call(args) matches Ok(c)
            && c.path == path && c.old_string == old_string && c.new_string == new_string && (
        c.replace_all <==> flag_at(args, "replace_all"@) == Some(true))),
        old_string.len() == 0 || old_string == new_string ==> edit_call(args) is Err,
{
}

/// An access leads to where the path was found and nowhere else: into the
/// workspace always, and out of it exactly where the session allows it or the
/// path is one for temporary files.
pub proof fn law_access_leads_where_found(
    x: Seq<char>,
    path: Seq<char>,
    tmp: bool,
    allowed: bool,
    access: FsAccess,
)
    ensures
        granted(Ok(x), path, tmp, allowed, access) == Ok::<Seq<char>, Seq<char>>(x),
        checked(Ok(x), path) == Ok::<Seq<char>, Seq<char>>(x),
        ({
            let a = granted(
                Err(BoundFailureV::ParentOutside { resolved: x }),
                path,
                tmp,
                allowed,
                access,
            );
            let b = granted(
                Err(BoundFailureV::TargetOutside { resolved: x }),
                path,
                tmp,
                allowed,
                access,
            );
            &&& tmp || allowed ==> a == Ok::<Seq<char>, Seq<char>>(x) && b == Ok::<
                Seq<char>,
                Seq<char>,
            >(x)
            &&& !tmp && !allowed ==> a is Err && b is Err
        }),
        forall|f: BoundFailureV| #![auto] checked(Err(f), path) is Err,
{
}

/// A file of environment variables and a private key are sensitive, whatever
/// the case of their names; a template of the former and a public key are not.
pub proof fn law_secrets_are_known(path: Seq<char>, n: Seq<char>)
    requires
        name_of(path) is Some,
        ascii_lower(name_of(path)->0) == n,
    ensures
        n == ".env"@ || n == ".env.local"@ ==> is_secret(path),
        n == "id_rsa"@ || n == "id_ed25519"@ || n == "id_ecdsa"@ || n == "id_dsa"@ ==> is_secret(
            path,
        ),
        n == ".env.example"@ || n == ".env.sample"@ || n == ".env.template"@ ==> !is_secret(path),
        n == "id_rsa.pub"@ || n == "id_ed25519.pub"@ ==> !is_secret(path),
{
    reveal_strlit(".env");
    reveal_strlit(".env.");
    reveal_strlit(".env.local");
    reveal_strlit(".env.example");
    reveal_strlit(".env.sample");
    reveal_strlit(".env.template");
    reveal_strlit("id_rsa");
    reveal_strlit("id_ed25519");
    reveal_strlit("id_ecdsa");
    reveal_strlit("id_dsa");
    reveal_strlit("id_rsa.pub");
    reveal_strlit("id_ed25519.pub");
    reveal_strlit(".pub");
    reveal_strlit("credentials");
    assert(".env"@.len() == 4 && ".env.local"@.len() == 10 && ".env.example"@.len() == 12
        && ".env.sample"@.len() == 11 && ".env.template"@.len() == 13 && "id_rsa"@.len() == 6
        && "id_ed25519"@.len() == 10 && "id_ecdsa"@.len() == 8 && "id_dsa"@.len() == 6
        && "id_rsa.pub"@.len() == 10 && "id_ed25519.pub"@.len() == 14 && "credentials"@.len()
        == 11);
    assert(".env.local"@.subrange(0, 5) =~= ".env."@);
    assert(".env.sample"@[0] == '.' && "credentials"@[0] == 'c' && "id_rsa"@[0] == 'i');
    assert("id_rsa"@.subrange(2, 6)[0] == '_' && ".pub"@[0] == '.');
    assert("id_ed25519"@.subrange(6, 10)[0] == '5');
    assert("id_ecdsa"@.subrange(4, 8)[0] == 'c');
    assert("id_dsa"@.subrange(2, 6)[0] == '_');
    assert("id_rsa.pub"@.subrange(6, 10) =~= ".pub"@);
    assert("id_ed25519.pub"@.subrange(10, 14) =~= ".pub"@);
    if n == ".env.example"@ || n == ".env.sample"@ || n == ".env.template"@ {
        assert(n[0] == '.');
        assert(!is_key_name(n, "id_rsa"@)) by {
            assert(n.subrange(0, 6)[0] == '.');
        }
        assert(!is_key_name(n, "id_ed25519"@)) by {
            assert(n.subrange(0, 10)[0] == '.');
            assert("id_ed25519"@[0] == 'i');
        }
        assert(!is_key_name(n, "id_ecdsa"@)) by {
            assert(n.subrange(0, 8)[0] == '.');
            assert("id_ecdsa"@[0] == 'i');
        }
        assert(!is_key_name(n, "id_dsa"@)) by {
            assert(n.subrange(0, 6)[0] == '.');
            assert("id_dsa"@[0] == 'i');
        }
    }
    if n == "id_rsa.pub"@ || n == "id_ed25519.pub"@ {
        assert(n[0] == 'i');
        assert(!starts_with(n, ".env."@)) by {
            assert(n.subrange(0, 5)[0] == 'i');
            assert(".env."@[0] == '.');
        }
        assert(ends_with(n, ".pub"@));
    }
}

} // verus!
