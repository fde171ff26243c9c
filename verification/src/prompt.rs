//! The system prompt: what a session's first message tells the model of its
//! surroundings and its rules.

use crate::chars::{
    byte_len, chars_of, decimal, decimal_of, fit, fitting, longer_than, push_all, push_text,
    string_of, trim, trimmed,
};
use crate::agent::{AgentProfile, ProfileV};
use crate::protocol::ExecMode;
use vstd::prelude::*;

verus! {

/// How many bytes of instructions are taken over.
pub const AGENTS_MD_MAX: usize = 32_768;

/// How every session is to behave.
pub const RULES: &'static str = "行为准则:\n- 回答使用与用户相同的语言（默认中文）。\n- 修改代码前先读文件确认现状，不要臆测文件内容。\n- 不执行有破坏性的命令（删除、格式化、强制推送等）。\n- 读文件/搜索优先用 Read、Glob、Grep 专用工具，而非 Bash。\n- 多步任务先用 TodoList 拆分并随时更新进度。\n- 长时命令（dev server/watch/长构建）用 Bash 的 run_in_background，配合 TaskOutput 查输出。\n- 需要用户拍板时用 AskUserQuestion 给出选项，而不是纯文本提问。\n- 回答简洁，代码用 Markdown 代码块给出。\n";

/// The tools of a session.
pub const TOOLS: &'static str = "\n可用工具:\n- Read: 读取工作区文件（输出带行号；UTF-16/GBK 自动转码、二进制拒绝；单次约 10 万字符上限，用 offset/limit 分页）。\n- Write: 写入整个文件（自动创建父目录；已存在的文件保留原编码与行尾）。\n- Edit: 精确替换文件文本（old_string 须唯一出现，replace_all=true 替换全部；保留原编码与行尾）。\n- Glob: 按模式匹配文件名（如 **/*.rs；尊重 .gitignore、含隐藏文件，按最近修改排序）。\n- Grep: 正则搜索文件内容，输出 文件:行号: 内容（尊重 .gitignore、含隐藏文件、跳过敏感文件；ignore_case 可忽略大小写）。\n- Bash: 执行 shell 命令（Windows 下为 cmd /C），返回 stdout/stderr 与退出码；支持 timeout（默认 60s/最大 300s，超时自动转后台），输出过长落盘到 .pigcode/tool-results/。\n- TodoList: 管理会话级待办清单（省略参数读取，提供 todos 整体替换）。\n- FetchURL: 抓取公开网页并提取正文（不支持需登录页面）。\n- TaskList: 列出后台 Bash 任务（id、状态、耗时）。\n- TaskOutput: 查看后台任务输出（尾部节选）。\n- TaskStop: 停止仍在运行的后台任务。\n- AskUserQuestion: 需要用户决策时给出 1-4 个结构化问题（每题 2-4 选项）让用户选择。\n\n需要了解文件内容或验证改动时主动调用工具，拿到结果后再回答。\n";

// ---------------------------------------------------------------------------
// The calendar
// ---------------------------------------------------------------------------

/// Whether a year has a leap day.
pub open spec fn is_leap(y: int) -> bool {
    y % 4 == 0 && (y % 100 != 0 || y % 400 == 0)
}

/// How many days a year has.
pub open spec fn year_len(y: int) -> int {
    if is_leap(y) {
        366
    } else {
        365
    }
}

/// How many days a month has.
pub open spec fn month_len(y: int, m: int) -> int {
    if m == 2 {
        if is_leap(y) {
            29
        } else {
            28
        }
    } else if m == 4 || m == 6 || m == 9 || m == 11 {
        30
    } else {
        31
    }
}

/// How many days lie between the start of 1970 and that of a year.
pub open spec fn year_start(y: int) -> int
    decreases y - 1970,
{
    if y <= 1970 {
        0
    } else {
        year_start(y - 1) + year_len(y - 1)
    }
}

/// How many days lie between the start of a year and that of a month.
pub open spec fn month_start(y: int, m: int) -> int
    decreases m,
{
    if m <= 1 {
        0
    } else {
        month_start(y, m - 1) + month_len(y, m - 1)
    }
}

/// Whether the day that lies `days` days after the first of January 1970 is
/// the day `d` of the month `m` of the year `y`.
pub open spec fn is_date(days: int, y: int, m: int, d: int) -> bool {
    &&& 1970 <= y
    &&& 1 <= m <= 12
    &&& 1 <= d <= month_len(y, m)
    &&& days == year_start(y) + month_start(y, m) + d - 1
}

/// How many leap days lie before a year.
spec fn leaps(y: int) -> int {
    (y - 1) / 4 - (y - 1) / 100 + (y - 1) / 400
}

/// One year more or less in a count of leap days.
proof fn lemma_leap_step(z: int)
    ensures
        leaps(z + 1) - leaps(z) == if is_leap(z) {
            1int
        } else {
            0int
        },
{
    assert(z / 4 - (z - 1) / 4 == if z % 4 == 0 {
        1int
    } else {
        0int
    });
    assert(z / 100 - (z - 1) / 100 == if z % 100 == 0 {
        1int
    } else {
        0int
    });
    assert(z / 400 - (z - 1) / 400 == if z % 400 == 0 {
        1int
    } else {
        0int
    });
    assert(z % 100 == 0 ==> z % 4 == 0);
    assert(z % 400 == 0 ==> z % 100 == 0);
}

proof fn lemma_year_start(y: int)
    requires
        1970 <= y,
    ensures
        year_start(y) == 365 * (y - 1970) + leaps(y) - leaps(1970),
    decreases y,
{
    if y > 1970 {
        lemma_year_start(y - 1);
        lemma_leap_step(y - 1);
    }
}

proof fn lemma_shift(x: int, k: int, q: int)
    requires
        k > 0,
    ensures
        (x + k * q) / k == x / k + q,
        (x + k * q) % k == x % k,
{
    vstd::arithmetic::mul::lemma_mul_is_commutative(k, q);
    vstd::arithmetic::div_mod::lemma_hoist_over_denominator(x, q, k as nat);
    vstd::arithmetic::div_mod::lemma_mod_multiples_vanish(q, x, k);
}

proof fn lemma_era(y: int, e: int)
    requires
        1970 <= y,
        0 <= e,
    ensures
        year_start(y + 400 * e) == year_start(y) + 146097 * e,
        year_len(y + 400 * e) == year_len(y),
{
    lemma_year_start(y);
    lemma_year_start(y + 400 * e);
    lemma_shift(y - 1, 4, 100 * e);
    lemma_shift(y - 1, 100, 4 * e);
    lemma_shift(y - 1, 400, e);
    lemma_shift(y, 4, 100 * e);
    lemma_shift(y, 100, 4 * e);
    lemma_shift(y, 400, e);
}

proof fn lemma_months(y: int)
    ensures
        month_start(y, 12) + month_len(y, 12) == year_len(y),
{
    reveal_with_fuel(month_start, 13);
}

fn leap(y: u64) -> (r: bool)
    ensures
        r == is_leap(y as int),
{
    y % 4 == 0 && (y % 100 != 0 || y % 400 == 0)
}

fn days_in_year(y: u64) -> (r: u64)
    ensures
        r == year_len(y as int),
{
    if leap(y) {
        366
    } else {
        365
    }
}

fn days_in_month(y: u64, m: u64) -> (r: u64)
    ensures
        r == month_len(y as int, m as int),
{
    if m == 2 {
        if leap(y) {
            29
        } else {
            28
        }
    } else if m == 4 || m == 6 || m == 9 || m == 11 {
        30
    } else {
        31
    }
}

/// The date of the day that lies `days` days after the first of January 1970.
pub fn civil(days: u64) -> (r: (u64, u64, u64))
    requires
        days <= 213_503_982_334_601,
    ensures
        is_date(days as int, r.0 as int, r.1 as int, r.2 as int),
{
    let era: u64 = days / 146_097;
    let mut rest: u64 = days % 146_097;
    let mut y: u64 = 1970 + 400 * era;
    let ghost mut k: int = 0;
    proof {
        lemma_era(1970, era as int);
        assert(year_start(1970) == 0);
    }
    while rest >= days_in_year(y)
        invariant
            0 <= k,
            y == 1970 + 400 * era + k,
            k * 365 + rest <= 146_097,
            era <= 1_461_400_000,
            days == year_start(y as int) + rest,
            rest < 146_097,
        decreases rest,
    {
        rest = rest - days_in_year(y);
        y = y + 1;
        proof {
            k = k + 1;
        }
    }
    let mut m: u64 = 1;
    proof {
        assert(month_start(y as int, 1) == 0);
    }
    while m < 12 && rest >= days_in_month(y, m)
        invariant
            1 <= m <= 12,
            days == year_start(y as int) + month_start(y as int, m as int) + rest,
            month_start(y as int, m as int) + rest < year_len(y as int),
            1970 <= y,
        decreases 12 - m,
    {
        rest = rest - days_in_month(y, m);
        m = m + 1;
    }
    proof {
        lemma_months(y as int);
    }
    (y, m, rest + 1)
}

/// A number with zeros in front, up to a width.
pub open spec fn padded(n: nat, width: int) -> Seq<char> {
    let t = decimal(n);
    if t.len() < width {
        Seq::new((width - t.len()) as nat, |i: int| '0') + t
    } else {
        t
    }
}

fn push_padded(out: &mut Vec<char>, n: u64, width: usize)
    ensures
        final(out)@ == old(out)@ + padded(n as nat, width as int),
{
    let ghost before = out@;
    let t = decimal_of(n);
    let mut i: usize = t.len();
    let ghost k = i as int;
    while i < width
        invariant
            k == t@.len(),
            k <= i,
            k < width ==> i <= width,
            k >= width ==> i == k,
            out@ == before + Seq::new((i - k) as nat, |j: int| '0'),
        decreases width - i,
    {
        out.push('0');
        i = i + 1;
        proof {
            assert(out@ =~= before + Seq::new((i - k) as nat, |j: int| '0'));
        }
    }
    let ghost zeros = out@;
    push_all(out, t.as_slice());
    proof {
        assert(out@ =~= before + padded(n as nat, width as int));
    }
}

/// Whether a text writes a date as year, month and day.
pub open spec fn writes_date(t: Seq<char>, days: int) -> bool {
    exists|y: int, m: int, d: int| #[trigger]
        is_date(days, y, m, d) && t == padded(y as nat, 4) + "-"@ + padded(m as nat, 2) + "-"@
            + padded(d as nat, 2)
}

/// The date, in UTC, of a time in seconds since 1970.
pub fn today(secs: u64) -> (r: String)
    ensures
        writes_date(r@, (secs / 86_400) as int),
{
    let (y, m, d) = civil(secs / 86_400);
    let mut out: Vec<char> = Vec::new();
    push_padded(&mut out, y, 4);
    push_text(&mut out, "-");
    push_padded(&mut out, m, 2);
    push_text(&mut out, "-");
    push_padded(&mut out, d, 2);
    proof {
        assert(is_date((secs / 86_400) as int, y as int, m as int, d as int));
        assert(out@ =~= padded(y as nat, 4) + "-"@ + padded(m as nat, 2) + "-"@ + padded(
            d as nat,
            2,
        ));
    }
    string_of(out.as_slice())
}

// ---------------------------------------------------------------------------
// Instructions
// ---------------------------------------------------------------------------

/// A section with instructions; nothing where there are none.
pub open spec fn section(label: Seq<char>, content: Option<Seq<char>>) -> Seq<char> {
    match content {
        Some(c) => "\n## "@ + label + " AGENTS.md\n\n"@ + c + "\n"@,
        None => Seq::empty(),
    }
}

/// Instructions that are too long end with a note, after as many whole
/// characters as fit.
pub open spec fn shortened(s: Seq<char>) -> Seq<char> {
    if byte_len(s) > AGENTS_MD_MAX {
        fit(s, AGENTS_MD_MAX as nat) + "\n[AGENTS.md 过长，已截断]"@
    } else {
        s
    }
}

/// The instructions for all workspaces and then those of this one. Where the
/// former are too long, the latter are left out.
pub open spec fn instructions(global: Option<Seq<char>>, workspace: Option<Seq<char>>) -> Seq<char> {
    let first = section("全局"@, global);
    if byte_len(first) > AGENTS_MD_MAX {
        shortened(first)
    } else {
        shortened(first + section("工作区"@, workspace))
    }
}

/// What an optional text says.
pub open spec fn opt_view(v: Option<&str>) -> Option<Seq<char>> {
    match v {
        Some(s) => Some(s@),
        None => None,
    }
}

fn push_section(out: &mut Vec<char>, label: &str, content: Option<&str>)
    ensures
        final(out)@ == old(out)@ + section(label@, opt_view(content)),
{
    let ghost before = out@;
    match content {
        Some(c) => {
            push_text(out, "\n## ");
            push_text(out, label);
            push_text(out, " AGENTS.md\n\n");
            push_text(out, c);
            push_text(out, "\n");
        },
        None => {},
    }
    proof {
        assert(out@ =~= before + section(label@, opt_view(content)));
    }
}

fn shorten(out: Vec<char>) -> (r: String)
    ensures
        r@ == shortened(out@),
{
    if longer_than(out.as_slice(), AGENTS_MD_MAX) {
        let mut cut: Vec<char> = Vec::new();
        push_all(&mut cut, fitting(out.as_slice(), AGENTS_MD_MAX));
        push_text(&mut cut, "\n[AGENTS.md 过长，已截断]");
        proof {
            assert(cut@ =~= shortened(out@));
        }
        string_of(cut.as_slice())
    } else {
        string_of(out.as_slice())
    }
}

/// Puts the instructions together. The arguments are what the two files hold,
/// where they can be read.
pub fn agents_md(global: Option<&str>, workspace: Option<&str>) -> (r: String)
    ensures
        r@ == instructions(opt_view(global), opt_view(workspace)),
{
    let mut out: Vec<char> = Vec::new();
    push_section(&mut out, "全局", global);
    proof {
        assert(out@ =~= section("全局"@, opt_view(global)));
    }
    if longer_than(out.as_slice(), AGENTS_MD_MAX) {
        return shorten(out);
    }
    push_section(&mut out, "工作区", workspace);
    shorten(out)
}

// ---------------------------------------------------------------------------
// The prompt
// ---------------------------------------------------------------------------

/// The state of the repository in a word: the branch, and whether there are
/// changes. Nothing where the branch is not known.
pub open spec fn repository(branch: Option<Seq<char>>, dirty: bool) -> Option<Seq<char>> {
    match branch {
        Some(b) => if trim(b).len() == 0 {
            None
        } else {
            Some(
                trim(b) + if dirty {
                    " (有未提交变更)"@
                } else {
                    ""@
                },
            )
        },
        None => None,
    }
}

/// Whether git printed that there are changes.
pub open spec fn is_dirty(status: Option<&[u8]>) -> bool {
    match status {
        Some(bytes) => bytes@.len() > 0,
        None => false,
    }
}

/// Puts the state of the repository in a word. `branch` is what git printed
/// for it, where that worked, and `status` what it printed of changes, where it
/// could be run.
pub fn git_info(branch: Option<&str>, status: Option<&[u8]>) -> (r: Option<String>)
    ensures
        match r {
            Some(t) => repository(opt_view(branch), is_dirty(status)) == Some(t@),
            None => repository(opt_view(branch), is_dirty(status)) is None,
        },
{
    let dirty = match status {
        Some(bytes) => bytes.len() > 0,
        None => false,
    };
    match branch {
        Some(b) => {
            let v = chars_of(b);
            let t = trimmed(v.as_slice());
            if t.len() == 0 {
                return None;
            }
            let mut out: Vec<char> = Vec::new();
            push_all(&mut out, t);
            if dirty {
                push_text(&mut out, " (有未提交变更)");
            } else {
                push_text(&mut out, "");
            }
            proof {
                assert(out@ =~= repository(opt_view(branch), dirty)->0);
            }
            Some(string_of(out.as_slice()))
        },
        None => None,
    }
}

/// What an execution mode allows, in words.
pub open spec fn mode_rules(mode: ExecMode) -> Seq<char> {
    match mode {
        ExecMode::ConfirmBeforeEdit => "\n当前执行模式: 变更前确认。修改文件或执行命令前会先请用户审批，审批通过才会执行。\n"@,
        ExecMode::AutoEdit => "\n当前执行模式: 自动编辑。可以直接修改文件；执行命令前会先请用户审批。\n"@,
        ExecMode::Plan => "\n当前执行模式: 计划模式。你是只读的：不要调用 Write/Edit/Bash 等修改类工具，只能用 Read/Glob/Grep 调研，最终输出一份可执行的计划文本。\n"@,
        ExecMode::FullAccess => "\n当前执行模式: 完全访问。所有工具直接执行，无需审批；命中高风险命令时会弹窗请用户确认。\n"@,
        ExecMode::Yolo => "\n当前执行模式: 无管制（Yolo）。所有工具直接执行，无审批也无危险命令拦截；敏感文件（.env/私钥/凭据）仍然不可读写。\n"@,
    }
}

fn mode_text(mode: ExecMode) -> (r: &'static str)
    ensures
        r@ == mode_rules(mode),
{
    match mode {
        ExecMode::ConfirmBeforeEdit => "\n当前执行模式: 变更前确认。修改文件或执行命令前会先请用户审批，审批通过才会执行。\n",
        ExecMode::AutoEdit => "\n当前执行模式: 自动编辑。可以直接修改文件；执行命令前会先请用户审批。\n",
        ExecMode::Plan => "\n当前执行模式: 计划模式。你是只读的：不要调用 Write/Edit/Bash 等修改类工具，只能用 Read/Glob/Grep 调研，最终输出一份可执行的计划文本。\n",
        ExecMode::FullAccess => "\n当前执行模式: 完全访问。所有工具直接执行，无需审批；命中高风险命令时会弹窗请用户确认。\n",
        ExecMode::Yolo => "\n当前执行模式: 无管制（Yolo）。所有工具直接执行，无审批也无危险命令拦截；敏感文件（.env/私钥/凭据）仍然不可读写。\n",
    }
}

/// What a session runs in.
pub struct Surroundings<'a> {
    pub cwd: &'a str,
    pub os: &'a str,
    pub arch: &'a str,
    /// The date of the day.
    pub date: &'a str,
    /// The state of the repository, if the workspace is one.
    pub git: Option<&'a str>,
}

/// The surroundings as the model reads them.
pub open spec fn env_block(e: Surroundings) -> Seq<char> {
    "<env>\n工作目录: "@ + e.cwd@ + "\n平台: "@ + e.os@ + "-"@ + e.arch@ + "\n日期: "@ + e.date@ + "\n"@
        + match e.git {
        Some(g) => "git: "@ + g@ + "\n"@,
        None => Seq::empty(),
    } + "</env>\n"@
}

/// The prompt's part on the surroundings.
pub open spec fn surroundings(e: Surroundings) -> Seq<char> {
    "你是 pig-code，一个运行在用户工作区里的 AI 编程助手。\n\n"@ + env_block(e) + "\n"@
}

/// The system prompt.
pub open spec fn prompt_of(
    e: Surroundings,
    has_tools: bool,
    mode: ExecMode,
    agents: Seq<char>,
) -> Seq<char> {
    surroundings(e) + RULES@ + mode_rules(mode) + agents + if has_tools {
        TOOLS@
    } else {
        Seq::empty()
    }
}

fn push_env(out: &mut Vec<char>, e: &Surroundings)
    ensures
        final(out)@ == old(out)@ + env_block(*e),
{
    let ghost start = out@;
    push_text(out, "<env>\n工作目录: ");
    push_text(out, e.cwd);
    push_text(out, "\n平台: ");
    push_text(out, e.os);
    push_text(out, "-");
    push_text(out, e.arch);
    push_text(out, "\n日期: ");
    push_text(out, e.date);
    push_text(out, "\n");
    match e.git {
        Some(g) => {
            push_text(out, "git: ");
            push_text(out, g);
            push_text(out, "\n");
        },
        None => {},
    }
    push_text(out, "</env>\n");
    proof {
        assert(out@ =~= start + env_block(*e));
    }
}

/// Writes the system prompt. `agents` are the instructions of the user and the
/// workspace.
pub fn system_prompt(e: &Surroundings, has_tools: bool, mode: ExecMode, agents: &str) -> (r: String)
    ensures
        r@ == prompt_of(*e, has_tools, mode, agents@),
{
    let mut out: Vec<char> = Vec::new();
    push_text(&mut out, "你是 pig-code，一个运行在用户工作区里的 AI 编程助手。\n\n");
    push_env(&mut out, e);
    push_text(&mut out, "\n");
    proof {
        assert(out@ =~= surroundings(*e));
    }
    push_text(&mut out, RULES);
    push_text(&mut out, mode_text(mode));
    push_text(&mut out, agents);
    if has_tools {
        push_text(&mut out, TOOLS);
    }
    proof {
        assert(out@ =~= prompt_of(*e, has_tools, mode, agents@));
    }
    string_of(out.as_slice())
}

/// The system prompt of a subagent: the surroundings, the instructions where
/// its profile wants them, and at the end what the profile says.
pub open spec fn subagent_prompt(e: Surroundings, p: ProfileV, agents: Seq<char>) -> Seq<char> {
    env_block(e) + (if p.inject_agents_md {
        agents
    } else {
        Seq::empty()
    }) + "\n"@ + p.system_prompt
}

/// Writes the system prompt of a subagent. `agents` are the instructions of
/// the user and the workspace.
pub fn subagent_system_prompt(e: &Surroundings, profile: &AgentProfile, agents: &str) -> (r: String)
    ensures
        r@ == subagent_prompt(*e, profile@, agents@),
{
    let mut out: Vec<char> = Vec::new();
    push_env(&mut out, e);
    if profile.inject_agents_md {
        push_text(&mut out, agents);
    }
    push_text(&mut out, "\n");
    push_text(&mut out, profile.system_prompt.as_str());
    proof {
        assert(out@ =~= subagent_prompt(*e, profile@, agents@));
    }
    string_of(out.as_slice())
}

// ---------------------------------------------------------------------------
// Laws
// ---------------------------------------------------------------------------

proof fn lemma_year_mono(y: int, z: int)
    requires
        1970 <= y < z,
    ensures
        year_start(y) + year_len(y) <= year_start(z),
    decreases z - y,
{
    if y + 1 < z {
        lemma_year_mono(y, z - 1);
    }
}

proof fn lemma_month_mono(y: int, m: int, n: int)
    requires
        1 <= m < n,
    ensures
        month_start(y, m) + month_len(y, m) <= month_start(y, n),
    decreases n - m,
{
    if m + 1 < n {
        lemma_month_mono(y, m, n - 1);
    }
}

proof fn lemma_in_year(y: int, m: int, d: int)
    requires
        1 <= m <= 12,
        1 <= d <= month_len(y, m),
    ensures
        0 <= month_start(y, m) + d - 1 < year_len(y),
{
    reveal_with_fuel(month_start, 13);
}

/// A day has one date only.
pub proof fn law_one_date(days: int, y: int, m: int, d: int, y2: int, m2: int, d2: int)
    requires
        is_date(days, y, m, d),
        is_date(days, y2, m2, d2),
    ensures
        y == y2,
        m == m2,
        d == d2,
{
    lemma_in_year(y, m, d);
    lemma_in_year(y2, m2, d2);
    if y < y2 {
        lemma_year_mono(y, y2);
    } else if y2 < y {
        lemma_year_mono(y2, y);
    } else if m < m2 {
        lemma_month_mono(y, m, m2);
    } else if m2 < m {
        lemma_month_mono(y, m2, m);
    }
}

/// The instructions are those for all workspaces and then those of this one,
/// word for word, where they are not too long.
pub proof fn law_instructions_are_kept(g: Seq<char>, w: Seq<char>)
    ensures
        ({
            let first = "\n## "@ + "全局"@ + " AGENTS.md\n\n"@ + g + "\n"@;
            let second = "\n## "@ + "工作区"@ + " AGENTS.md\n\n"@ + w + "\n"@;
            &&& byte_len(first) <= 32_768 && byte_len(first + second) <= 32_768 ==> instructions(
                Some(g),
                Some(w),
            ) == first + second
            &&& byte_len(first) <= 32_768 ==> instructions(Some(g), None) == first
            &&& byte_len(second) <= 32_768 ==> instructions(None, Some(w)) == second
            &&& instructions(None, None).len() == 0
        }),
{
    let none = Seq::<char>::empty();
    let first = "\n## "@ + "全局"@ + " AGENTS.md\n\n"@ + g + "\n"@;
    let second = "\n## "@ + "工作区"@ + " AGENTS.md\n\n"@ + w + "\n"@;
    assert(first + none =~= first);
    assert(none + second =~= second);
    assert(none + none =~= none);
    assert(byte_len(none) == 0);
}

/// The system prompt tells the directory, the platform, the day and the
/// repository, the rules, what the mode allows, the instructions, and the tools
/// where there are any; a subagent's ends with what its profile says.
pub proof fn law_prompt_tells(
    e: Surroundings,
    has_tools: bool,
    mode: ExecMode,
    agents: Seq<char>,
    p: ProfileV,
)
    ensures
        ({
            let git = match e.git {
                Some(g) => "git: "@ + g@ + "\n"@,
                None => Seq::<char>::empty(),
            };
            let around = "<env>\n工作目录: "@ + e.cwd@ + "\n平台: "@ + e.os@ + "-"@ + e.arch@
                + "\n日期: "@ + e.date@ + "\n"@ + git + "</env>\n"@;
            let whole = "你是 pig-code，一个运行在用户工作区里的 AI 编程助手。\n\n"@ + around + "\n"@
                + RULES@ + mode_rules(mode) + agents;
            &&& has_tools ==> prompt_of(e, has_tools, mode, agents) == whole + TOOLS@
            &&& !has_tools ==> prompt_of(e, has_tools, mode, agents) == whole
            &&& p.inject_agents_md ==> subagent_prompt(e, p, agents) == around + agents + "\n"@
                + p.system_prompt
            &&& !p.inject_agents_md ==> subagent_prompt(e, p, agents) == around + "\n"@
                + p.system_prompt
        }),
{
    let none = Seq::<char>::empty();
    assert(env_block(e) + none =~= env_block(e));
    let whole = surroundings(e) + RULES@ + mode_rules(mode) + agents;
    assert(whole + none =~= whole);
}

} // verus!
