//! The tools that look for files by name and by content, and the search for
//! files to mention.

use crate::chars::{
    byte_len, bytes_of_char, cat3, cat5, chars_of, copied, decimal, find_sub, has_char, join,
    joined, joined_strings, lines, lines_of, number_text, position_sub_from, push_text, rows,
    str_eq, string_of, text_from, texts,
};
use crate::files::{is_secret, is_sensitive_file};
use crate::json::{flag_at, text_at, Json, JsonV};
use crate::patterns::{
    build_glob, build_regex, glob_error, glob_hit, glob_matches, glob_source, regex_error, regex_hit,
    regex_matches, regex_source,
};
use crate::paths::{below, file_name, name_of, parts, path_words, relative_path, shown_path, text_below};
use crate::ranking::{is_sorting, ranked_say, sort_ranked, Ranked, RankedV};
use vstd::prelude::*;

verus! {

/// How many matches are reported.
pub const MAX_MATCH_RESULTS: usize = 200;

/// A longer file is not searched.
pub const MAX_GREP_FILE_SIZE: u64 = 2_097_152;

/// What `str::to_lowercase` makes of a text.
pub uninterp spec fn lowercase(text: Seq<char>) -> Seq<char>;

/// Calls `str::to_lowercase`: the text in small letters. It depends on the
/// text alone and is named `lowercase`.
#[verifier::external_body]
fn small_letters(text: &str) -> (r: String)
    ensures
        r@ == lowercase(text@),
{
    text.to_lowercase()
}

// ---------------------------------------------------------------------------
// Which files are looked at
// ---------------------------------------------------------------------------

/// Whether a directory is never looked into.
pub open spec fn is_skipped(name: Seq<char>) -> bool {
    name == ".git"@ || name == ".svn"@ || name == ".hg"@ || name == ".bzr"@ || name == ".jj"@ || name
        == ".sl"@ || name == ".pigcode"@
}

/// Whether a directory is never looked into: those of version control, and the
/// one in which sessions keep their files.
pub fn is_skipped_dir(name: &str) -> (r: bool)
    ensures
        r == is_skipped(name@),
{
    str_eq(name, ".git") || str_eq(name, ".svn") || str_eq(name, ".hg") || str_eq(name, ".bzr")
        || str_eq(name, ".jj") || str_eq(name, ".sl") || str_eq(name, ".pigcode")
}

/// Files with the times at which they were changed.
pub open spec fn stamped_say(v: Seq<(u128, String)>) -> Seq<(u128, Seq<char>)> {
    v.map_values(|p: (u128, String)| (p.0, p.1@))
}

/// How a file is ranked: the last one that was changed first, and by the parts
/// of its path where the times are the same.
pub open spec fn age_rank(p: (u128, Seq<char>)) -> RankedV {
    RankedV { rank: (u128::MAX - p.0) as u128, words: parts(p.1), text: p.1 }
}

/// How files are ranked.
pub open spec fn age_ranks(v: Seq<(u128, Seq<char>)>) -> Seq<RankedV> {
    v.map_values(|p: (u128, Seq<char>)| age_rank(p))
}

/// The texts of ranked things.
pub open spec fn ranked_texts(v: Seq<RankedV>) -> Seq<Seq<char>> {
    v.map_values(|x: RankedV| x.text)
}

/// Whether `r` holds the texts of the things of `v` in order.
pub open spec fn are_sorted_texts(v: Seq<RankedV>, r: Seq<Seq<char>>) -> bool {
    exists|s: Seq<RankedV>| #[trigger] is_sorting(v, s) && r == ranked_texts(s)
}

fn texts_of_ranked(v: &Vec<Ranked>, limit: usize) -> (r: Vec<String>)
    ensures
        texts(r@) == ranked_texts(ranked_say(v@)).take(
            if limit < v@.len() {
                limit as int
            } else {
                v@.len() as int
            },
        ),
{
    let ghost want = ranked_texts(ranked_say(v@));
    let n: usize = if limit < v.len() {
        limit
    } else {
        v.len()
    };
    let mut out: Vec<String> = Vec::new();
    proof {
        assert(texts(out@) =~= want.take(0));
    }
    for i in 0..n
        invariant
            n <= v@.len(),
            want == ranked_texts(ranked_say(v@)),
            texts(out@) == want.take(i as int),
    {
        let ghost before = texts(out@);
        out.push(v[i].text.clone());
        proof {
            assert(texts(out@) =~= before.push(want[i as int]));
            assert(want.take(i as int + 1) =~= before.push(want[i as int]));
        }
    }
    out
}

/// Sorts files: the last one that was changed first, and by the parts of the
/// path where the times are the same.
pub fn sort_by_mtime_desc(files: &[(u128, String)]) -> (r: Vec<String>)
    ensures
        are_sorted_texts(age_ranks(stamped_say(files@)), texts(r@)),
{
    let ghost want = age_ranks(stamped_say(files@));
    let mut v: Vec<Ranked> = Vec::new();
    proof {
        assert(ranked_say(v@) =~= want.take(0));
    }
    for i in 0..files.len()
        invariant
            want == age_ranks(stamped_say(files@)),
            ranked_say(v@) == want.take(i as int),
    {
        let ghost before = ranked_say(v@);
        let x = Ranked {
            rank: u128::MAX - files[i].0,
            words: path_words(files[i].1.as_str()),
            text: files[i].1.clone(),
        };
        let ghost xv = x@;
        v.push(x);
        proof {
            assert(xv == want[i as int]);
            assert(ranked_say(v@) =~= before.push(xv));
            assert(want.take(i as int + 1) =~= before.push(want[i as int]));
        }
    }
    proof {
        assert(want.take(files@.len() as int) =~= want);
    }
    let s = sort_ranked(&v);
    let r = texts_of_ranked(&s, s.len());
    proof {
        let t = ranked_say(s@);
        assert(ranked_texts(t).take(s@.len() as int) =~= ranked_texts(t));
        assert(is_sorting(want, t));
    }
    r
}

// ---------------------------------------------------------------------------
// Searching for names
// ---------------------------------------------------------------------------

/// A file as the pattern sees it: its path below the directory that is
/// searched.
pub open spec fn seen_from(file: Seq<char>, root: Seq<char>) -> Seq<char> {
    match below(file, root) {
        Some(t) => t,
        None => file,
    }
}

/// Whether a file is meant: by its path where the pattern has a separator, else
/// by its name.
pub open spec fn is_meant(pattern: Seq<char>, file: Seq<char>, root: Seq<char>) -> bool {
    if pattern.contains('/') {
        glob_hit(pattern, seen_from(file, root))
    } else {
        match name_of(file) {
            Some(n) => glob_hit(pattern, n),
            None => false,
        }
    }
}

/// The files that are found, as they are shown, and how many sensitive ones
/// were left out. The search ends when enough are found.
pub open spec fn found_names(
    pattern: Seq<char>,
    files: Seq<Seq<char>>,
    root: Seq<char>,
    cwd: Seq<char>,
) -> (Seq<Seq<char>>, nat)
    decreases files.len(),
{
    if files.len() == 0 {
        (Seq::empty(), 0)
    } else {
        let (names, left_out) = found_names(pattern, files.drop_last(), root, cwd);
        let file = files.last();
        if names.len() >= MAX_MATCH_RESULTS || !is_meant(pattern, file, root) {
            (names, left_out)
        } else if is_secret(file) {
            (names, left_out + 1)
        } else {
            (names.push(shown_path(file, cwd, cwd)), left_out)
        }
    }
}

/// What is reported of the files that were found.
pub open spec fn names_report(names: Seq<Seq<char>>, left_out: nat) -> Seq<char> {
    let a = if names.len() > 0 {
        seq![join(names, "\n"@)]
    } else {
        Seq::empty()
    };
    let b = if names.len() >= MAX_MATCH_RESULTS {
        a.push("[结果过多，已截断为前 200 条]"@)
    } else {
        a
    };
    let c = if left_out > 0 {
        b.push("[已过滤 "@ + decimal(left_out) + " 个敏感文件]"@)
    } else {
        b
    };
    if c.len() == 0 {
        "（无匹配文件）"@
    } else {
        join(c, "\n\n"@)
    }
}

/// A pattern for names, or what is wrong with it.
pub open spec fn glob_pattern(args: JsonV) -> Result<Seq<char>, Seq<char>> {
    match text_at(args, "pattern"@) {
        None => Err("缺少参数 pattern"@),
        Some(p) => match glob_error(p) {
            Some(e) => Err("无效 glob 模式 "@ + p + ": "@ + e),
            None => Ok(p),
        },
    }
}

fn fault(a: &str, b: &str, c: &str) -> (r: String)
    ensures
        r@ == a@ + b@ + ": "@ + c@,
{
    let mut out = chars_of(a);
    push_text(&mut out, b);
    push_text(&mut out, ": ");
    push_text(&mut out, c);
    string_of(out.as_slice())
}

fn show_names(names: &Vec<String>, left_out: usize) -> (r: String)
    ensures
        r@ == names_report(texts(names@), left_out as nat),
{
    let mut v: Vec<Vec<char>> = Vec::new();
    proof {
        assert(rows(v@) =~= Seq::<Seq<char>>::empty());
    }
    if names.len() > 0 {
        v.push(joined_strings(names.as_slice(), "\n"));
        proof {
            assert(rows(v@) =~= seq![join(texts(names@), "\n"@)]);
        }
    }
    let ghost a = rows(v@);
    if names.len() >= MAX_MATCH_RESULTS {
        v.push(chars_of("[结果过多，已截断为前 200 条]"));
        proof {
            assert(rows(v@) =~= a.push("[结果过多，已截断为前 200 条]"@));
        }
    }
    let ghost b = rows(v@);
    if left_out > 0 {
        let t = cat3("[已过滤 ", number_text(left_out as u64).as_str(), " 个敏感文件]");
        v.push(chars_of(t.as_str()));
        proof {
            assert(rows(v@) =~= b.push("[已过滤 "@ + decimal(left_out as nat) + " 个敏感文件]"@));
        }
    }
    proof {
        assert(rows(v@).len() == v@.len());
    }
    if v.len() == 0 {
        text_from("（无匹配文件）")
    } else {
        string_of(joined(v.as_slice(), "\n\n").as_slice())
    }
}

/// Checks the pattern of a search for names.
pub fn parse_glob(args: &Json) -> (r: Result<String, String>)
    ensures
        match r {
            Ok(p) => glob_pattern(args.says()) == Ok::<Seq<char>, Seq<char>>(p@),
            Err(e) => glob_pattern(args.says()) == Err::<Seq<char>, Seq<char>>(e@),
        },
{
    let p = match args.str_at("pattern") {
        None => return Err(text_from("缺少参数 pattern")),
        Some(p) => p,
    };
    match build_glob(p.as_str()) {
        Err(e) => Err(fault("无效 glob 模式 ", p.as_str(), e.as_str())),
        Ok(_g) => Ok(p),
    }
}

/// Whether the pattern means the file; `by_path` says whether it has a
/// separator.
fn meant(g: &glob::Pattern, by_path: bool, file: &str, root: &str) -> (r: bool)
    requires
        by_path == glob_source(*g).contains('/'),
    ensures
        r == is_meant(glob_source(*g), file@, root@),
{
    if by_path {
        match text_below(file, root) {
            Some(t) => glob_matches(g, t.as_str()),
            None => glob_matches(g, file),
        }
    } else {
        match file_name(file) {
            Some(n) => glob_matches(g, n.as_str()),
            None => false,
        }
    }
}

/// Looks for files by name. `files` are those of the directory that is
/// searched, in the order in which they are reported. A pattern that the
/// library refuses is an error.
pub fn glob_files(pattern: &str, files: &[String], root: &str, cwd: &str) -> (r: Result<
    String,
    String,
>)
    ensures
        match glob_error(pattern@) {
            Some(e) => r is Err && r->Err_0@ == "无效 glob 模式 "@ + pattern@ + ": "@ + e,
            None => r is Ok && ({
                let (names, left_out) = found_names(pattern@, texts(files@), root@, cwd@);
                r->Ok_0@ == names_report(names, left_out)
            }),
        },
{
    let g = match build_glob(pattern) {
        Err(e) => return Err(fault("无效 glob 模式 ", pattern, e.as_str())),
        Ok(g) => g,
    };
    let by_path = has_char(chars_of(pattern).as_slice(), '/');
    let ghost all = texts(files@);
    let mut names: Vec<String> = Vec::new();
    let mut left_out: usize = 0;
    proof {
        assert(texts(names@) =~= Seq::<Seq<char>>::empty());
    }
    for i in 0..files.len()
        invariant
            all == texts(files@),
            glob_source(g) == pattern@,
            by_path == pattern@.contains('/'),
            left_out <= i,
            (texts(names@), left_out as nat) == found_names(
                pattern@,
                all.take(i as int),
                root@,
                cwd@,
            ),
    {
        proof {
            assert(all.take(i as int + 1).drop_last() =~= all.take(i as int));
            assert(all.take(i as int + 1).last() == files@[i as int]@);
            assert(texts(names@).len() == names@.len());
        }
        let file = files[i].as_str();
        if names.len() < MAX_MATCH_RESULTS && meant(&g, by_path, file, root) {
            if is_sensitive_file(file) {
                left_out = left_out + 1;
            } else {
                let ghost before = texts(names@);
                names.push(relative_path(file, cwd, cwd));
                proof {
                    assert(texts(names@) =~= before.push(shown_path(file@, cwd@, cwd@)));
                }
            }
        }
    }
    proof {
        assert(all.take(files@.len() as int) =~= all);
    }
    Ok(show_names(&names, left_out))
}

// ---------------------------------------------------------------------------
// Searching in files
// ---------------------------------------------------------------------------

/// What is searched for.
#[derive(Debug, PartialEq)]
pub struct GrepQuery {
    pub pattern: String,
    pub ignore_case: bool,
    /// The pattern that the names of files must match.
    pub only: Option<String>,
}

/// What a `GrepQuery` says.
#[verifier::ext_equal]
pub struct GrepQueryV {
    pub pattern: Seq<char>,
    pub ignore_case: bool,
    pub only: Option<Seq<char>>,
}

impl View for GrepQuery {
    type V = GrepQueryV;

    open spec fn view(&self) -> GrepQueryV {
        GrepQueryV {
            pattern: self.pattern@,
            ignore_case: self.ignore_case,
            only: crate::chars::opt_text(self.only),
        }
    }
}

/// What the arguments ask to search for, or what is wrong with them.
pub open spec fn grep_query(args: JsonV) -> Result<GrepQueryV, Seq<char>> {
    match text_at(args, "pattern"@) {
        None => Err("缺少参数 pattern"@),
        Some(pattern) => {
            let ignore_case = flag_at(args, "ignore_case"@) == Some(true);
            match regex_error(pattern, ignore_case) {
                Some(e) => Err("无效正则 "@ + pattern + ": "@ + e),
                None => Ok(GrepQueryV { pattern, ignore_case, only: text_at(args, "include"@) }),
            }
        },
    }
}

/// Reads the arguments of a search in files.
pub fn parse_grep(args: &Json) -> (r: Result<GrepQuery, String>)
    ensures
        match r {
            Ok(q) => grep_query(args.says()) == Ok::<GrepQueryV, Seq<char>>(q@),
            Err(e) => grep_query(args.says()) == Err::<GrepQueryV, Seq<char>>(e@),
        },
{
    let pattern = match args.str_at("pattern") {
        None => return Err(text_from("缺少参数 pattern")),
        Some(p) => p,
    };
    let ignore_case = match args.bool_at("ignore_case") {
        Some(b) => b,
        None => false,
    };
    match build_regex(pattern.as_str(), ignore_case) {
        Err(e) => Err(fault("无效正则 ", pattern.as_str(), e.as_str())),
        Ok(_x) => Ok(GrepQuery { pattern, ignore_case, only: args.str_at("include") }),
    }
}

/// How far a search in files has come.
#[verifier::ext_equal]
pub struct GrepV {
    /// The lines that are reported so far.
    pub out: Seq<Seq<char>>,
    /// How many sensitive files were passed over.
    pub skipped: nat,
    /// Whether enough was found.
    pub full: bool,
}

/// A search that has not begun.
pub open spec fn grep_start() -> GrepV {
    GrepV { out: Seq::empty(), skipped: 0, full: false }
}

/// A line that is found, as it is reported.
pub open spec fn hit_line(shown: Seq<char>, n: nat, line: Seq<char>) -> Seq<char> {
    shown + ":"@ + decimal(n) + ": "@ + line
}

/// The search after the lines of a file.
pub open spec fn grep_lines(q: GrepQueryV, st: GrepV, shown: Seq<char>, v: Seq<Seq<char>>) -> GrepV
    decreases v.len(),
{
    if v.len() == 0 {
        st
    } else {
        let before = grep_lines(q, st, shown, v.drop_last());
        if before.full || !regex_hit(q.pattern, q.ignore_case, v.last()) {
            before
        } else {
            let out = before.out.push(hit_line(shown, v.len(), v.last()));
            if out.len() >= MAX_MATCH_RESULTS {
                GrepV { out: out.push("[结果过多，已截断为前 200 行]"@), full: true, ..before }
            } else {
                GrepV { out, ..before }
            }
        }
    }
}

/// Whether a file's name is one of those that are searched.
pub open spec fn is_included(q: GrepQueryV, file: Seq<char>) -> bool {
    match q.only {
        None => true,
        Some(p) => glob_hit(
            p,
            match name_of(file) {
                Some(n) => n,
                None => Seq::empty(),
            },
        ),
    }
}

/// The search after a file, or what is wrong with the pattern for names.
/// `content` is what the file holds, where it is a text; a long file and one
/// with zeros are passed over.
pub open spec fn grep_step(
    q: GrepQueryV,
    st: GrepV,
    file: Seq<char>,
    cwd: Seq<char>,
    size: u64,
    content: Option<Seq<char>>,
) -> Result<GrepV, Seq<char>> {
    if st.full {
        Ok(st)
    } else if is_secret(file) {
        Ok(GrepV { skipped: st.skipped + 1, ..st })
    } else if q.only is Some && glob_error(q.only->0) is Some {
        Err("无效 include 模式 "@ + q.only->0 + ": "@ + glob_error(q.only->0)->0)
    } else if !is_included(q, file) || size > MAX_GREP_FILE_SIZE {
        Ok(st)
    } else {
        match content {
            None => Ok(st),
            Some(c) => if c.contains('\0') {
                Ok(st)
            } else {
                Ok(grep_lines(q, st, shown_path(file, cwd, cwd), lines(c)))
            },
        }
    }
}

/// Whether the search needs to know what a file holds.
pub open spec fn wants_file(q: GrepQueryV, st: GrepV, file: Seq<char>, size: u64) -> bool {
    !st.full && !is_secret(file) && (q.only is Some ==> glob_error(q.only->0) is None)
        && is_included(q, file) && size <= MAX_GREP_FILE_SIZE
}

/// What is reported of a search.
pub open spec fn grep_report(st: GrepV) -> Seq<char> {
    let out = if st.skipped > 0 {
        st.out.push("[已跳过 "@ + decimal(st.skipped) + " 个敏感文件]"@)
    } else {
        st.out
    };
    if out.len() == 0 {
        "（无匹配内容）"@
    } else {
        join(out, "\n"@)
    }
}

/// A search in files.
pub struct Grep {
    query: GrepQuery,
    regex: regex::Regex,
    out: Vec<String>,
    skipped: usize,
    full: bool,
}

impl View for Grep {
    type V = GrepV;

    closed spec fn view(&self) -> GrepV {
        GrepV { out: texts(self.out@), skipped: self.skipped as nat, full: self.full }
    }
}

impl Grep {
    /// What is searched for.
    pub closed spec fn asked(&self) -> GrepQueryV {
        self.query@
    }

    /// The regular expression is that of the query, and a search that goes on
    /// has reported less than the most.
    pub closed spec fn wf(&self) -> bool {
        &&& regex_source(self.regex) == (self.query.pattern@, self.query.ignore_case)
        &&& !self.full ==> self.out@.len() < MAX_MATCH_RESULTS
    }

    /// Begins a search.
    pub fn new(query: GrepQuery) -> (r: Result<Grep, String>)
        ensures
            match regex_error(query@.pattern, query@.ignore_case) {
                Some(e) => r is Err && r->Err_0@ == "无效正则 "@ + query@.pattern + ": "@ + e,
                None => r is Ok && r->Ok_0.wf() && r->Ok_0.asked() == query@ && r->Ok_0@
                    == grep_start(),
            },
    {
        match build_regex(query.pattern.as_str(), query.ignore_case) {
            Err(e) => Err(fault("无效正则 ", query.pattern.as_str(), e.as_str())),
            Ok(regex) => {
                let g = Grep { query, regex, out: Vec::new(), skipped: 0, full: false };
                proof {
                    assert(texts(g.out@) =~= Seq::<Seq<char>>::empty());
                }
                Ok(g)
            },
        }
    }

    /// Whether enough was found.
    pub fn is_full(&self) -> (r: bool)
        ensures
            r == self@.full,
    {
        self.full
    }

    fn included(&self, file: &str) -> (r: Result<bool, String>)
        ensures
            match r {
                Ok(b) => (self.asked().only is Some ==> glob_error(self.asked().only->0) is None)
                    && b == is_included(self.asked(), file@),
                Err(e) => self.asked().only is Some && glob_error(self.asked().only->0) is Some && e@
                    == "无效 include 模式 "@ + self.asked().only->0 + ": "@ + glob_error(
                    self.asked().only->0,
                )->0,
            },
    {
        match &self.query.only {
            None => Ok(true),
            Some(p) => match build_glob(p.as_str()) {
                Err(e) => Err(fault("无效 include 模式 ", p.as_str(), e.as_str())),
                Ok(g) => {
                    let name = match file_name(file) {
                        Some(n) => n,
                        None => String::new(),
                    };
                    proof {
                        if name_of(file@) is None {
                            assert(name@ =~= Seq::<char>::empty());
                        }
                    }
                    Ok(glob_matches(&g, name.as_str()))
                },
            },
        }
    }

    /// Whether the search needs to know what a file holds.
    pub fn wants(&self, file: &str, size: u64) -> (r: bool)
        ensures
            r == wants_file(self.asked(), self@, file@, size),
    {
        if self.full || is_sensitive_file(file) || size > MAX_GREP_FILE_SIZE {
            return false;
        }
        match self.included(file) {
            Ok(b) => b,
            Err(_e) => false,
        }
    }

    fn search_lines(&mut self, shown: &str, v: &Vec<Vec<char>>)
        requires
            old(self).wf(),
            !old(self)@.full,
        ensures
            final(self).wf(),
            final(self).asked() == old(self).asked(),
            final(self)@ == grep_lines(old(self).asked(), old(self)@, shown@, rows(v@)),
    {
        let ghost all = rows(v@);
        let ghost q = self.asked();
        let ghost start = self@;
        for i in 0..v.len()
            invariant
                all == rows(v@),
                self.wf(),
                self.asked() == q,
                self@ == grep_lines(q, start, shown@, all.take(i as int)),
        {
            let ghost before = self@;
            proof {
                assert(all.take(i as int + 1).drop_last() =~= all.take(i as int));
                assert(all.take(i as int + 1).last() == v@[i as int]@);
                assert(texts(self.out@).len() == self.out@.len());
            }
            if !self.full {
                let line = string_of(v[i].as_slice());
                if regex_matches(&self.regex, line.as_str()) {
                    let t = cat5(
                        shown,
                        ":",
                        number_text(i as u64 + 1).as_str(),
                        ": ",
                        line.as_str(),
                    );
                    let ghost tv = t@;
                    self.out.push(t);
                    proof {
                        assert(texts(self.out@) =~= before.out.push(tv));
                        assert(tv == hit_line(shown@, (i + 1) as nat, line@));
                    }
                    if self.out.len() >= MAX_MATCH_RESULTS {
                        let ghost so_far = texts(self.out@);
                        self.out.push(text_from("[结果过多，已截断为前 200 行]"));
                        self.full = true;
                        proof {
                            assert(texts(self.out@) =~= so_far.push("[结果过多，已截断为前 200 行]"@));
                        }
                    }
                }
            }
        }
        proof {
            assert(all.take(v@.len() as int) =~= all);
        }
    }

    /// Searches a file. `size` is its length in bytes and `content` what it
    /// holds, where it is a text.
    pub fn search(&mut self, file: &str, cwd: &str, size: u64, content: Option<&str>) -> (r: Result<
        (),
        String,
    >)
        requires
            old(self).wf(),
            old(self)@.skipped < usize::MAX,
        ensures
            final(self).wf(),
            final(self).asked() == old(self).asked(),
            match grep_step(
                old(self).asked(),
                old(self)@,
                file@,
                cwd@,
                size,
                crate::prompt::opt_view(content),
            ) {
                Ok(st) => r is Ok && final(self)@ == st,
                Err(e) => r is Err && r->Err_0@ == e && final(self)@ == old(self)@,
            },
    {
        if self.full {
            return Ok(());
        }
        if is_sensitive_file(file) {
            self.skipped = self.skipped + 1;
            return Ok(());
        }
        match self.included(file) {
            Err(e) => return Err(e),
            Ok(b) => {
                if !b || size > MAX_GREP_FILE_SIZE {
                    return Ok(());
                }
            },
        }
        match content {
            None => Ok(()),
            Some(c) => {
                let text = chars_of(c);
                if has_char(text.as_slice(), '\0') {
                    return Ok(());
                }
                let v = lines_of(text.as_slice());
                let shown = relative_path(file, cwd, cwd);
                self.search_lines(shown.as_str(), &v);
                Ok(())
            },
        }
    }

    /// Reports what was found.
    pub fn report(self) -> (r: String)
        ensures
            r@ == grep_report(self@),
    {
        let ghost st = self@;
        let skipped = self.skipped;
        let mut out = self.out;
        if skipped > 0 {
            let t = cat3("[已跳过 ", number_text(skipped as u64).as_str(), " 个敏感文件]");
            let ghost tv = t@;
            out.push(t);
            proof {
                assert(texts(out@) =~= st.out.push(tv));
            }
        }
        proof {
            assert(texts(out@).len() == out@.len());
        }
        if out.len() == 0 {
            text_from("（无匹配内容）")
        } else {
            string_of(joined_strings(out.as_slice(), "\n").as_slice())
        }
    }
}

// ---------------------------------------------------------------------------
// Files to mention
// ---------------------------------------------------------------------------

/// How a file is ranked that a query is looked for in: the earlier and the
/// shorter first. A file in which it is not found is left out.
pub open spec fn mention_rank(shown: Seq<char>, query: Seq<char>) -> Option<RankedV> {
    if query.len() == 0 {
        Some(
            RankedV {
                rank: (byte_len(shown) + 1000) as u128,
                words: seq![shown],
                text: shown,
            },
        )
    } else {
        let low = lowercase(shown);
        match find_sub(low, query) {
            Some(k) => Some(
                RankedV {
                    rank: (byte_len(low.take(k)) * 1000 + byte_len(shown)) as u128,
                    words: seq![shown],
                    text: shown,
                },
            ),
            None => None,
        }
    }
}

/// The files that a query may mean, with their ranks. Only files of the
/// workspace are looked at.
pub open spec fn mention_ranks(files: Seq<Seq<char>>, cwd: Seq<char>, query: Seq<char>) -> Seq<
    RankedV,
>
    decreases files.len(),
{
    if files.len() == 0 {
        Seq::empty()
    } else {
        let before = mention_ranks(files.drop_last(), cwd, query);
        if below(files.last(), cwd) is None {
            before
        } else {
            match mention_rank(shown_path(files.last(), cwd, cwd), query) {
                Some(x) => before.push(x),
                None => before,
            }
        }
    }
}

fn count_bytes(s: &[char], n: usize) -> (r: u128)
    requires
        n <= s@.len(),
    ensures
        r == byte_len(s@.take(n as int)),
        r <= 4 * n,
{
    let mut sum: u128 = 0;
    for i in 0..n
        invariant
            n <= s@.len(),
            sum == byte_len(s@.take(i as int)),
            sum <= 4 * i,
    {
        proof {
            assert(s@.take(i as int + 1).drop_last() =~= s@.take(i as int));
            assert(s@.take(i as int + 1).last() == s@[i as int]);
        }
        let k: usize = bytes_of_char(s[i]);
        sum = sum + k as u128;
    }
    sum
}

fn rank_mention(shown: String, query: &[char]) -> (r: Option<Ranked>)
    ensures
        match r {
            Some(x) => mention_rank(shown@, query@) == Some(x@),
            None => mention_rank(shown@, query@) is None,
        },
{
    let s = chars_of(shown.as_str());
    let len = count_bytes(s.as_slice(), s.len());
    proof {
        assert(s@.take(s@.len() as int) =~= s@);
    }
    let mut words: Vec<Vec<char>> = Vec::new();
    words.push(copied(s.as_slice()));
    proof {
        assert(rows(words@) =~= seq![shown@]);
    }
    if query.len() == 0 {
        return Some(Ranked { rank: len + 1000, words, text: shown });
    }
    let low = chars_of(small_letters(shown.as_str()).as_str());
    match position_sub_from(low.as_slice(), query, 0) {
        Some(k) => {
            proof {
                crate::chars::lemma_find_sub_from(low@, query@, 0);
            }
            let pos = count_bytes(low.as_slice(), k);
            Some(Ranked { rank: pos * 1000 + len, words, text: shown })
        },
        None => None,
    }
}

/// Whether `r` holds the best of the ranked things, at most `limit` of them.
pub open spec fn are_best(v: Seq<RankedV>, limit: int, r: Seq<Seq<char>>) -> bool {
    exists|s: Seq<RankedV>| #[trigger]
        is_sorting(v, s) && r == ranked_texts(s).take(
            if limit < s.len() {
                limit
            } else {
                s.len() as int
            },
        )
}

/// Looks for files to mention, by a part of their path. `files` are those of
/// the workspace.
pub fn search_files(files: &[String], cwd: &str, query: &str, limit: usize) -> (r: Vec<String>)
    ensures
        are_best(
            mention_ranks(texts(files@), cwd@, lowercase(query@)),
            limit as int,
            texts(r@),
        ),
{
    let q = chars_of(small_letters(query).as_str());
    let ghost all = texts(files@);
    let ghost want = mention_ranks(all, cwd@, q@);
    let mut v: Vec<Ranked> = Vec::new();
    proof {
        assert(ranked_say(v@) =~= Seq::<RankedV>::empty());
    }
    for i in 0..files.len()
        invariant
            all == texts(files@),
            ranked_say(v@) == mention_ranks(all.take(i as int), cwd@, q@),
    {
        let ghost before = ranked_say(v@);
        proof {
            assert(all.take(i as int + 1).drop_last() =~= all.take(i as int));
            assert(all.take(i as int + 1).last() == files@[i as int]@);
        }
        let file = files[i].as_str();
        if text_below(file, cwd).is_some() {
            match rank_mention(relative_path(file, cwd, cwd), q.as_slice()) {
                Some(x) => {
                    let ghost xv = x@;
                    v.push(x);
                    proof {
                        assert(ranked_say(v@) =~= before.push(xv));
                    }
                },
                None => {},
            }
        }
    }
    proof {
        assert(all.take(files@.len() as int) =~= all);
    }
    let s = sort_ranked(&v);
    let r = texts_of_ranked(&s, limit);
    proof {
        assert(is_sorting(want, ranked_say(s@)));
        assert(ranked_say(s@).len() == s@.len());
    }
    r
}

// ---------------------------------------------------------------------------
// Laws
// ---------------------------------------------------------------------------

proof fn lemma_found_names(
    pattern: Seq<char>,
    files: Seq<Seq<char>>,
    root: Seq<char>,
    cwd: Seq<char>,
    x: Seq<char>,
)
    ensures
        found_names(pattern, files, root, cwd).0.len() <= MAX_MATCH_RESULTS,
        found_names(pattern, files, root, cwd).0.contains(x) ==> exists|i: int|
            0 <= i < files.len() && is_meant(pattern, #[trigger] files[i], root) && !is_secret(
                files[i],
            ) && shown_path(files[i], cwd, cwd) == x,
    decreases files.len(),
{
    if files.len() > 0 {
        lemma_found_names(pattern, files.drop_last(), root, cwd, x);
        let before = found_names(pattern, files.drop_last(), root, cwd).0;
        let r = found_names(pattern, files, root, cwd).0;
        if r.contains(x) {
            if before.contains(x) {
                let i = choose|i: int|
                    0 <= i < files.drop_last().len() && is_meant(
                        pattern,
                        #[trigger] files.drop_last()[i],
                        root,
                    ) && !is_secret(files.drop_last()[i]) && shown_path(
                        files.drop_last()[i],
                        cwd,
                        cwd,
                    ) == x;
                assert(files[i] == files.drop_last()[i]);
            } else {
                let k = choose|k: int| 0 <= k < r.len() && r[k] == x;
                if k < before.len() {
                    assert(before[k] == x);
                }
                assert(files[files.len() - 1] == files.last());
            }
        }
    }
}

/// A search for names reports no sensitive file, nothing that the pattern does
/// not mean, and no more than the most.
pub proof fn law_names_are_meant(
    pattern: Seq<char>,
    files: Seq<Seq<char>>,
    root: Seq<char>,
    cwd: Seq<char>,
    x: Seq<char>,
)
    requires
        found_names(pattern, files, root, cwd).0.contains(x),
    ensures
        found_names(pattern, files, root, cwd).0.len() <= MAX_MATCH_RESULTS,
        exists|i: int|
            0 <= i < files.len() && is_meant(pattern, #[trigger] files[i], root) && !is_secret(
                files[i],
            ) && shown_path(files[i], cwd, cwd) == x,
{
    lemma_found_names(pattern, files, root, cwd, x);
}

/// What a sensitive file holds does not come into a search: whatever it holds,
/// the search goes on as if it were empty.
pub proof fn law_sensitive_content_stays_out(
    q: GrepQueryV,
    st: GrepV,
    file: Seq<char>,
    cwd: Seq<char>,
    size: u64,
    a: Option<Seq<char>>,
    b: Option<Seq<char>>,
)
    requires
        is_secret(file),
    ensures
        grep_step(q, st, file, cwd, size, a) == grep_step(q, st, file, cwd, size, b),
        grep_step(q, st, file, cwd, size, a) is Ok,
        grep_step(q, st, file, cwd, size, a)->Ok_0.out == st.out,
{
}

/// A search that need not know what a file holds goes the same way whatever
/// that is.
pub proof fn law_unread_files_do_not_matter(
    q: GrepQueryV,
    st: GrepV,
    file: Seq<char>,
    cwd: Seq<char>,
    size: u64,
    a: Option<Seq<char>>,
    b: Option<Seq<char>>,
)
    requires
        !wants_file(q, st, file, size),
    ensures
        grep_step(q, st, file, cwd, size, a) == grep_step(q, st, file, cwd, size, b),
{
}

/// A search in a file reports every line that the pattern hits, with the file
/// and the line's own number, counted from one, and the line as it is, in their
/// order and behind what was reported before, while there is room.
pub proof fn law_every_hit_is_reported(
    q: GrepQueryV,
    st: GrepV,
    shown: Seq<char>,
    v: Seq<Seq<char>>,
)
    requires
        !grep_lines(q, st, shown, v).full,
    ensures
        grep_lines(q, st, shown, v).out == st.out + Seq::new(v.len(), |i: int| i).filter(
            |i: int| regex_hit(q.pattern, q.ignore_case, v[i]),
        ).map_values(|i: int| shown + ":"@ + decimal((i + 1) as nat) + ": "@ + v[i]),
        grep_lines(q, st, shown, v).skipped == st.skipped,
    decreases v.len(),
{
    let hits = |i: int| regex_hit(q.pattern, q.ignore_case, v[i]);
    let told = |i: int| shown + ":"@ + decimal((i + 1) as nat) + ": "@ + v[i];
    let all = Seq::new(v.len(), |i: int| i);
    reveal(Seq::filter);
    if v.len() == 0 {
        assert(all.filter(hits).map_values(told) =~= Seq::<Seq<char>>::empty());
        assert(st.out + Seq::<Seq<char>>::empty() =~= st.out);
    } else {
        let front = v.drop_last();
        let before = grep_lines(q, st, shown, front);
        assert(!before.full);
        law_every_hit_is_reported(q, st, shown, front);
        let some = Seq::new(front.len(), |i: int| i);
        assert(all.drop_last() =~= some);
        lemma_same_hits(q, shown, v, some);
        let n = (v.len() - 1) as int;
        assert(all.last() == n);
        if hits(n) {
            assert(all.filter(hits) =~= some.filter(hits).push(n));
            assert(all.filter(hits).map_values(told) =~= some.filter(hits).map_values(told).push(
                told(n),
            ));
            assert(hit_line(shown, v.len(), v.last()) =~= told(n));
        } else {
            assert(all.filter(hits) =~= some.filter(hits));
        }
        assert(grep_lines(q, st, shown, v).out =~= st.out + all.filter(hits).map_values(told));
    }
}

proof fn lemma_same_hits(q: GrepQueryV, shown: Seq<char>, v: Seq<Seq<char>>, some: Seq<int>)
    requires
        v.len() > 0,
        forall|k: int| 0 <= k < some.len() ==> 0 <= #[trigger] some[k] < v.len() - 1,
    ensures
        some.filter(|i: int| regex_hit(q.pattern, q.ignore_case, v[i])).map_values(
            |i: int| shown + ":"@ + decimal((i + 1) as nat) + ": "@ + v[i],
        ) == some.filter(|i: int| regex_hit(q.pattern, q.ignore_case, v.drop_last()[i])).map_values(
            |i: int| shown + ":"@ + decimal((i + 1) as nat) + ": "@ + v.drop_last()[i],
        ),
    decreases some.len(),
{
    let front = v.drop_last();
    let hits = |i: int| regex_hit(q.pattern, q.ignore_case, v[i]);
    let told = |i: int| shown + ":"@ + decimal((i + 1) as nat) + ": "@ + v[i];
    let fhits = |i: int| regex_hit(q.pattern, q.ignore_case, front[i]);
    let ftold = |i: int| shown + ":"@ + decimal((i + 1) as nat) + ": "@ + front[i];
    reveal(Seq::filter);
    if some.len() == 0 {
        assert(some.filter(hits).map_values(told) =~= some.filter(fhits).map_values(ftold));
    } else {
        let s = some.drop_last();
        assert forall|k: int| 0 <= k < s.len() implies 0 <= #[trigger] s[k] < v.len() - 1 by {
            assert(s[k] == some[k]);
        }
        lemma_same_hits(q, shown, v, s);
        let i = some.last();
        assert(some[some.len() - 1] == i);
        assert(front[i] == v[i]);
        if hits(i) {
            assert(some.filter(hits).map_values(told) =~= s.filter(hits).map_values(told).push(
                told(i),
            ));
            assert(some.filter(fhits).map_values(ftold) =~= s.filter(fhits).map_values(ftold).push(
                ftold(i),
            ));
        }
    }
}

/// A search for names reports every file that the pattern means and that is not
/// sensitive, in the order of the list, and counts the sensitive ones, while
/// there is room.
pub proof fn law_every_name_is_reported(
    pattern: Seq<char>,
    files: Seq<Seq<char>>,
    root: Seq<char>,
    cwd: Seq<char>,
)
    requires
        found_names(pattern, files, root, cwd).0.len() < 200,
    ensures
        found_names(pattern, files, root, cwd).0 == files.filter(
            |f: Seq<char>| is_meant(pattern, f, root) && !is_secret(f),
        ).map_values(|f: Seq<char>| shown_path(f, cwd, cwd)),
        found_names(pattern, files, root, cwd).1 == files.filter(
            |f: Seq<char>| is_meant(pattern, f, root) && is_secret(f),
        ).len(),
    decreases files.len(),
{
    let open = |f: Seq<char>| is_meant(pattern, f, root) && !is_secret(f);
    let kept = |f: Seq<char>| is_meant(pattern, f, root) && is_secret(f);
    let show = |f: Seq<char>| shown_path(f, cwd, cwd);
    reveal(Seq::filter);
    if files.len() == 0 {
        assert(files.filter(open).map_values(show) =~= Seq::<Seq<char>>::empty());
    } else {
        let front = files.drop_last();
        law_every_name_is_reported(pattern, front, root, cwd);
        if open(files.last()) {
            assert(files.filter(open).map_values(show) =~= front.filter(open).map_values(show).push(
                show(files.last()),
            ));
        }
    }
}

/// What a search asks for is what its arguments name, each in its own place.
pub proof fn law_search_is_read(args: JsonV, pattern: Seq<char>)
    requires
        text_at(args, "pattern"@) == Some(pattern),
    ensures
        grep_query(args) matches Ok(q) ==> q.pattern == pattern && (q.ignore_case <==> flag_at(
            args,
            "ignore_case"@,
        ) == Some(true)) && q.only == text_at(args, "include"@),
        grep_query(args) is Ok <==> regex_error(
            pattern,
            flag_at(args, "ignore_case"@) == Some(true),
        ) is None,
        glob_pattern(args) is Ok <==> glob_error(pattern) is None,
        glob_pattern(args) matches Ok(p) ==> p == pattern,
{
}

/// Every file of the workspace that a query is found in is ranked, under the
/// path that it is shown by, and no other is.
pub proof fn law_every_mention_is_ranked(files: Seq<Seq<char>>, cwd: Seq<char>, query: Seq<char>)
    ensures
        mention_ranks(files, cwd, query).map_values(|r: RankedV| r.text) == files.filter(
            |f: Seq<char>|
                below(f, cwd) is Some && (query.len() == 0 || find_sub(
                    lowercase(shown_path(f, cwd, cwd)),
                    query,
                ) is Some),
        ).map_values(|f: Seq<char>| shown_path(f, cwd, cwd)),
    decreases files.len(),
{
    let meant = |f: Seq<char>|
        below(f, cwd) is Some && (query.len() == 0 || find_sub(
            lowercase(shown_path(f, cwd, cwd)),
            query,
        ) is Some);
    let show = |f: Seq<char>| shown_path(f, cwd, cwd);
    let told = |r: RankedV| r.text;
    reveal(Seq::filter);
    if files.len() == 0 {
        assert(mention_ranks(files, cwd, query).map_values(told) =~= files.filter(meant).map_values(
            show,
        ));
    } else {
        let front = files.drop_last();
        law_every_mention_is_ranked(front, cwd, query);
        let before = mention_ranks(front, cwd, query);
        if meant(files.last()) {
            assert(files.filter(meant).map_values(show) =~= front.filter(meant).map_values(show).push(
                show(files.last()),
            ));
            let r = mention_rank(show(files.last()), query)->0;
            assert(before.push(r).map_values(told) =~= before.map_values(told).push(r.text));
        }
    }
}

} // verus!
