//! Subagent profiles: the built-in ones, the Markdown files that define more
//! of them, and how a profile's tools and model are found.

use crate::chars::{
    chars_of, contains, copied_opt, copied_strings, cut, find, holds_text, join, joined,
    joined_strings, lines, lines_of, lower_char, number_of, opt_text, parse_number, pieces,
    push_all, push_text, reads, rows, same, split, split_once, str_eq, string_of, texts, trim,
    trimmed, white, is_white,
};
use crate::config::{expand_env, expansion_ends, is_expansion, vars_say};
use crate::json::{says_opt, Json, JsonV};
use crate::order::{sort_texts, sorted, text_before, text_le};
use crate::protocol::{AppConfig, ModelConfig, ProviderConfig};
use crate::provider::ResolvedModel;
use vstd::prelude::*;
use vstd::slice::slice_subrange;

verus! {

/// How many turns a subagent takes where its profile names no limit.
pub const DEFAULT_MAX_TURNS: usize = 20;

/// Where a profile comes from.
#[derive(Clone, Copy, Debug, PartialEq, Eq, Structural)]
pub enum AgentSource {
    BuiltIn,
    User,
    Project,
}

/// A subagent profile.
#[derive(Clone, Debug)]
pub struct AgentProfile {
    /// 3 to 50 ASCII letters, digits and dashes.
    pub name: String,
    /// What the main model reads to decide when to delegate.
    pub description: String,
    /// `None`, or a list with `*`, allows every tool.
    pub tools: Option<Vec<String>>,
    /// `None` inherits the parent's model; else `provider/model`, or a model
    /// of the default provider.
    pub model: Option<String>,
    /// A reasoning level of the named model.
    pub thought_level: Option<String>,
    pub max_turns: Option<usize>,
    pub inject_agents_md: bool,
    pub system_prompt: String,
    pub source: AgentSource,
}

/// What an `AgentProfile` says.
#[verifier::ext_equal]
pub struct ProfileV {
    pub name: Seq<char>,
    pub description: Seq<char>,
    pub tools: Option<Seq<Seq<char>>>,
    pub model: Option<Seq<char>>,
    pub thought_level: Option<Seq<char>>,
    pub max_turns: Option<usize>,
    pub inject_agents_md: bool,
    pub system_prompt: Seq<char>,
    pub source: AgentSource,
}

/// The texts of an optional list of strings.
pub open spec fn opt_texts(v: Option<Vec<String>>) -> Option<Seq<Seq<char>>> {
    match v {
        Some(l) => Some(texts(l@)),
        None => None,
    }
}

impl View for AgentProfile {
    type V = ProfileV;

    open spec fn view(&self) -> ProfileV {
        ProfileV {
            name: self.name@,
            description: self.description@,
            tools: opt_texts(self.tools),
            model: opt_text(self.model),
            thought_level: opt_text(self.thought_level),
            max_turns: self.max_turns,
            inject_agents_md: self.inject_agents_md,
            system_prompt: self.system_prompt@,
            source: self.source,
        }
    }
}

/// What each of a list of profiles says.
pub open spec fn profiles_say(v: Seq<AgentProfile>) -> Seq<ProfileV> {
    v.map_values(|p: AgentProfile| p@)
}

impl AgentProfile {
    /// A profile that says the same.
    pub fn copy(&self) -> (r: AgentProfile)
        ensures
            r@ == self@,
    {
        let tools: Option<Vec<String>> = match &self.tools {
            Some(l) => Some(copied_strings(l.as_slice())),
            None => None,
        };
        AgentProfile {
            name: self.name.clone(),
            description: self.description.clone(),
            tools,
            model: copied_opt(&self.model),
            thought_level: copied_opt(&self.thought_level),
            max_turns: self.max_turns,
            inject_agents_md: self.inject_agents_md,
            system_prompt: self.system_prompt.clone(),
            source: self.source,
        }
    }
}

// ---------------------------------------------------------------------------
// Built-in profiles
// ---------------------------------------------------------------------------

/// The closing part of every subagent's system prompt: the main agent sees
/// the last message and nothing else.
pub open spec fn delivery_text() -> Seq<char> {
    "你是子代理：主代理看不到你的过程，只能看到你的最后一条消息。最后一条消息就是完整交付物——自包含、结论先行、关键证据带 路径:行号；不能向用户提问，信息不足时在结果里写明你的假设。"@
}

/// The closing part of every subagent's system prompt.
pub fn delivery_suffix() -> (r: &'static str)
    ensures
        r@ == delivery_text(),
{
    "你是子代理：主代理看不到你的过程，只能看到你的最后一条消息。最后一条消息就是完整交付物——自包含、结论先行、关键证据带 路径:行号；不能向用户提问，信息不足时在结果里写明你的假设。"
}

/// The system prompt of `general-purpose`, before the closing part.
pub open spec fn general_prompt() -> Seq<char> {
    "你是 general-purpose，一个通用研究与执行子代理：主代理把复杂问题研究、多步任务委派给你，你在用户的工作区里独立完成，只把最终结果带回。\n\n职责:\n- 研究复杂问题：读代码、查文档、跑命令验证假设，把结论带回来。\n- 执行多步任务：从任务描述自行规划步骤，复杂任务先用 TodoList 拆分并随时更新进度。\n- 修改代码前先读文件确认现状，改动贴合项目现有风格。\n\n工作方式:\n- 你拿到的只有任务描述，没有主会话的上下文：先自行补齐背景（读相关文件、搜关键符号）再动手。\n- 每完成一步验证一步（编译、测试、搜索核对），不要假设改动正确。\n- 不执行有破坏性的命令（删除、格式化、强制推送等）。\n\n"@
}

/// The system prompt of `explore`, before the closing part.
pub open spec fn explore_prompt() -> Seq<char> {
    "你是 explore，一个只读搜索子代理：宽幅 fan-out 搜代码、查问题，把带证据的结论带回给主代理。\n\n铁律（只读）:\n- 不得调用 Write/Edit 等任何修改文件的工具。\n- Bash 只允许只读命令：ls、cat、head/tail、grep、find、git log/git show/git status/git diff 等。\n- 禁止任何修改文件或状态的命令：写入/移动/删除文件、git add/commit/checkout/clean、包管理安装、mkdir/touch 等。\n- 拿不准一条命令是否只读时，不要执行它。\n\n搜索策略:\n- 先宽幅撒网：用 Glob 摸目录结构，用 Grep 按多个关键词/正则并行搜索，不要一次只验证一个假设。\n- 多假设并行：命名变体、不同目录、上下游调用方同时查证。\n- 从宽到窄收敛：先框定相关文件集合，再精读关键片段，拿到 路径:行号 级证据。\n\n交付要求:\n- 结论先行，随后列出支撑证据（路径:行号 + 关键代码/配置摘要）。\n- 一句话带过搜过但排除的方向及原因，让主代理不必重搜。\n\n"@
}

/// The built-in profile for research and multi-step work.
pub open spec fn general_profile() -> ProfileV {
    ProfileV {
        name: "general-purpose"@,
        description: "通用子代理：研究复杂问题、执行多步任务；中间过程不进主上下文，只把最终结论带回。"@,
        tools: None,
        model: None,
        thought_level: None,
        max_turns: None,
        inject_agents_md: true,
        system_prompt: general_prompt() + delivery_text(),
        source: AgentSource::BuiltIn,
    }
}

/// The built-in read-only search profile.
pub open spec fn explore_profile() -> ProfileV {
    ProfileV {
        name: "explore"@,
        description: "只读搜索代理：宽幅 fan-out 搜代码/查问题，返回带 路径:行号 证据的结论；不会修改任何文件。"@,
        tools: Some(
            seq![
                "Read"@,
                "Glob"@,
                "Grep"@,
                "Bash"@,
                "FetchURL"@,
                "ReadMediaFile"@,
                "TodoList"@,
            ],
        ),
        model: None,
        thought_level: None,
        max_turns: None,
        inject_agents_md: true,
        system_prompt: explore_prompt() + delivery_text(),
        source: AgentSource::BuiltIn,
    }
}

/// The two built-in profiles.
pub fn builtin_profiles() -> (r: Vec<AgentProfile>)
    ensures
        profiles_say(r@) == seq![general_profile(), explore_profile()],
{
    let mut general = String::new();
    general.append("你是 general-purpose，一个通用研究与执行子代理：主代理把复杂问题研究、多步任务委派给你，你在用户的工作区里独立完成，只把最终结果带回。\n\n职责:\n- 研究复杂问题：读代码、查文档、跑命令验证假设，把结论带回来。\n- 执行多步任务：从任务描述自行规划步骤，复杂任务先用 TodoList 拆分并随时更新进度。\n- 修改代码前先读文件确认现状，改动贴合项目现有风格。\n\n工作方式:\n- 你拿到的只有任务描述，没有主会话的上下文：先自行补齐背景（读相关文件、搜关键符号）再动手。\n- 每完成一步验证一步（编译、测试、搜索核对），不要假设改动正确。\n- 不执行有破坏性的命令（删除、格式化、强制推送等）。\n\n");
    general.append(delivery_suffix());
    let mut explore = String::new();
    explore.append("你是 explore，一个只读搜索子代理：宽幅 fan-out 搜代码、查问题，把带证据的结论带回给主代理。\n\n铁律（只读）:\n- 不得调用 Write/Edit 等任何修改文件的工具。\n- Bash 只允许只读命令：ls、cat、head/tail、grep、find、git log/git show/git status/git diff 等。\n- 禁止任何修改文件或状态的命令：写入/移动/删除文件、git add/commit/checkout/clean、包管理安装、mkdir/touch 等。\n- 拿不准一条命令是否只读时，不要执行它。\n\n搜索策略:\n- 先宽幅撒网：用 Glob 摸目录结构，用 Grep 按多个关键词/正则并行搜索，不要一次只验证一个假设。\n- 多假设并行：命名变体、不同目录、上下游调用方同时查证。\n- 从宽到窄收敛：先框定相关文件集合，再精读关键片段，拿到 路径:行号 级证据。\n\n交付要求:\n- 结论先行，随后列出支撑证据（路径:行号 + 关键代码/配置摘要）。\n- 一句话带过搜过但排除的方向及原因，让主代理不必重搜。\n\n");
    explore.append(delivery_suffix());
    let mut tools: Vec<String> = Vec::new();
    tools.push("Read".to_owned());
    tools.push("Glob".to_owned());
    tools.push("Grep".to_owned());
    tools.push("Bash".to_owned());
    tools.push("FetchURL".to_owned());
    tools.push("ReadMediaFile".to_owned());
    tools.push("TodoList".to_owned());
    let first = AgentProfile {
        name: "general-purpose".to_owned(),
        description: "通用子代理：研究复杂问题、执行多步任务；中间过程不进主上下文，只把最终结论带回。".to_owned(),
        tools: None,
        model: None,
        thought_level: None,
        max_turns: None,
        inject_agents_md: true,
        system_prompt: general,
        source: AgentSource::BuiltIn,
    };
    let second = AgentProfile {
        name: "explore".to_owned(),
        description: "只读搜索代理：宽幅 fan-out 搜代码/查问题，返回带 路径:行号 证据的结论；不会修改任何文件。".to_owned(),
        tools: Some(tools),
        model: None,
        thought_level: None,
        max_turns: None,
        inject_agents_md: true,
        system_prompt: explore,
        source: AgentSource::BuiltIn,
    };
    proof {
        assert(first.system_prompt@ =~= general_prompt() + delivery_text());
        assert(second.system_prompt@ =~= explore_prompt() + delivery_text());
        assert(texts(tools@) =~= explore_profile().tools->0);
        assert(second@ =~= explore_profile());
    }
    let mut out: Vec<AgentProfile> = Vec::new();
    out.push(first);
    out.push(second);
    proof {
        assert(profiles_say(out@) =~= seq![general_profile(), explore_profile()]);
    }
    out
}

// ---------------------------------------------------------------------------
// Reading a profile file
// ---------------------------------------------------------------------------

/// Whether `c` may stand in a profile's name.
pub open spec fn is_name_char(c: char) -> bool {
    ('a' <= c <= 'z') || ('A' <= c <= 'Z') || ('0' <= c <= '9') || c == '-'
}

/// Whether `name` is 3 to 50 ASCII letters, digits and dashes.
pub open spec fn is_valid_name(name: Seq<char>) -> bool {
    3 <= name.len() <= 50 && forall|i: int| 0 <= i < name.len() ==> is_name_char(#[trigger] name[i])
}

/// Whether `name` is 3 to 50 ASCII letters, digits and dashes.
pub fn valid_name(name: &str) -> (r: bool)
    ensures
        r == is_valid_name(name@),
{
    let s = chars_of(name);
    if s.len() < 3 || s.len() > 50 {
        return false;
    }
    for i in 0..s.len()
        invariant
            s@ == name@,
            forall|k: int| 0 <= k < i ==> is_name_char(#[trigger] s@[k]),
    {
        let c = s[i];
        let ok = ('a' <= c && c <= 'z') || ('A' <= c && c <= 'Z') || ('0' <= c && c <= '9') || c
            == '-';
        if !ok {
            proof {
                assert(!is_name_char(name@[i as int]));
            }
            return false;
        }
    }
    true
}

/// `value` without one pair of quotes around it.
pub open spec fn unquote(value: Seq<char>) -> Seq<char> {
    if value.len() >= 2 && ((value[0] == '"' && value.last() == '"') || (value[0] == '\''
        && value.last() == '\'')) {
        value.subrange(1, value.len() - 1)
    } else {
        value
    }
}

/// Drops one pair of quotes around a value.
pub fn strip_quotes(value: &[char]) -> (r: &[char])
    ensures
        r@ == unquote(value@),
{
    let n = value.len();
    if n >= 2 && ((value[0] == '"' && value[n - 1] == '"') || (value[0] == '\'' && value[n - 1]
        == '\'')) {
        slice_subrange(value, 1, n - 1)
    } else {
        value
    }
}

/// The model that a `model` field names: none where the field is empty,
/// `inherit` or `main`.
pub open spec fn model_value(raw: Seq<char>) -> Option<Seq<char>> {
    let value = trim(raw);
    if value.len() == 0 || value == "inherit"@ || value == "main"@ {
        None
    } else {
        Some(value)
    }
}

/// Reads a `model` field.
pub fn parse_model_value(raw: &[char]) -> (r: Option<String>)
    ensures
        opt_text(r) == model_value(raw@),
{
    let value = trimmed(raw);
    if value.len() == 0 || reads(value, "inherit") || reads(value, "main") {
        None
    } else {
        Some(string_of(value))
    }
}

/// The texts of `v` that are not empty, in order.
pub open spec fn non_empty(v: Seq<Seq<char>>) -> Seq<Seq<char>>
    decreases v.len(),
{
    if v.len() == 0 {
        Seq::empty()
    } else if v.last().len() > 0 {
        non_empty(v.drop_last()).push(v.last())
    } else {
        non_empty(v.drop_last())
    }
}

/// The items of an inline list, given the text between its brackets: split at
/// commas, trimmed, unquoted, without empty ones.
pub open spec fn inline_items(inner: Seq<char>) -> Seq<Seq<char>> {
    non_empty(split(inner, ',').map_values(|item: Seq<char>| unquote(trim(item))))
}

/// Reads the items of an inline list.
pub fn inline_list(inner: &[char]) -> (r: Vec<String>)
    ensures
        texts(r@) == inline_items(inner@),
{
    let parts = pieces(inner, ',');
    let ghost mapped = split(inner@, ',').map_values(|item: Seq<char>| unquote(trim(item)));
    let mut out: Vec<String> = Vec::new();
    proof {
        assert(texts(out@) =~= non_empty(mapped.take(0)));
    }
    for i in 0..parts.len()
        invariant
            rows(parts@) == split(inner@, ','),
            mapped == split(inner@, ',').map_values(|item: Seq<char>| unquote(trim(item))),
            texts(out@) == non_empty(mapped.take(i as int)),
    {
        let item = strip_quotes(trimmed(parts[i].as_slice()));
        let ghost before = texts(out@);
        proof {
            assert(rows(parts@)[i as int] == parts@[i as int]@);
            assert(mapped.take(i as int + 1).drop_last() =~= mapped.take(i as int));
            assert(mapped.take(i as int + 1).last() == item@);
        }
        if item.len() > 0 {
            out.push(string_of(item));
            proof {
                assert(texts(out@) =~= before.push(item@));
            }
        }
    }
    proof {
        assert(parts@.len() == rows(parts@).len());
        assert(mapped.take(parts@.len() as int) =~= mapped);
    }
    out
}

/// Whether a line is an item of an indented list: it begins with a blank or a
/// tab, and a dash follows.
pub open spec fn is_dash_line(raw: Seq<char>) -> bool {
    raw.len() > 0 && (raw[0] == ' ' || raw[0] == '\t') && trim(raw).len() > 0 && trim(raw)[0]
        == '-'
}

/// The text of a list item: what follows its dash, trimmed and unquoted.
pub open spec fn dash_text(raw: Seq<char>) -> Seq<char> {
    unquote(trim(trim(raw).skip(1)))
}

/// How many list items stand in a row from line `i` on.
pub open spec fn dash_run(lines: Seq<Seq<char>>, i: int) -> nat
    decreases lines.len() - i,
{
    if 0 <= i < lines.len() && is_dash_line(lines[i]) {
        1 + dash_run(lines, i + 1)
    } else {
        0
    }
}

/// The items of the indented list that starts at line `i`, without empty ones.
pub open spec fn dash_items(lines: Seq<Seq<char>>, i: int) -> Seq<Seq<char>> {
    non_empty(Seq::new(dash_run(lines, i), |k: int| dash_text(lines[i + k])))
}

/// A run of list items ends with the text.
pub proof fn lemma_dash_bound(lines: Seq<Seq<char>>, i: int)
    requires
        0 <= i <= lines.len(),
    ensures
        i + dash_run(lines, i) <= lines.len(),
    decreases lines.len() - i,
{
    if i < lines.len() {
        lemma_dash_bound(lines, i + 1);
    }
}

/// A run of list items is a run: each of its lines is one, the next line is
/// none.
pub proof fn lemma_dash_run(lines: Seq<Seq<char>>, i: int, n: int)
    requires
        0 <= i,
        0 <= n,
        i + n <= lines.len(),
        forall|k: int| i <= k < i + n ==> is_dash_line(#[trigger] lines[k]),
        i + n == lines.len() || !is_dash_line(lines[i + n]),
    ensures
        dash_run(lines, i) == n,
    decreases n,
{
    if n > 0 {
        assert(is_dash_line(lines[i]));
        lemma_dash_run(lines, i + 1, n - 1);
    }
}

/// Whether a line is an item of an indented list.
pub fn dash_line(raw: &[char]) -> (r: bool)
    ensures
        r == is_dash_line(raw@),
{
    if raw.len() == 0 || !(raw[0] == ' ' || raw[0] == '\t') {
        return false;
    }
    let t = trimmed(raw);
    t.len() > 0 && t[0] == '-'
}

/// Reads the indented list that starts at line `i`: its items and how many
/// lines it takes.
pub fn dash_list(lines: &[Vec<char>], i: usize) -> (r: (Vec<String>, usize))
    requires
        i <= lines.len(),
    ensures
        texts(r.0@) == dash_items(rows(lines@), i as int),
        r.1 == dash_run(rows(lines@), i as int),
        i + r.1 <= lines.len(),
{
    let ghost all = rows(lines@);
    let mut items: Vec<String> = Vec::new();
    let mut n: usize = 0;
    proof {
        assert(texts(items@) =~= non_empty(Seq::new(0nat, |k: int| dash_text(all[i + k]))));
    }
    while i + n < lines.len() && dash_line(lines[i + n].as_slice())
        invariant
            all == rows(lines@),
            i + n <= lines.len(),
            forall|k: int| i <= k < i + n ==> is_dash_line(#[trigger] all[k]),
            texts(items@) == non_empty(Seq::new(n as nat, |k: int| dash_text(all[i + k]))),
        decreases lines.len() - i - n,
    {
        let raw = lines[i + n].as_slice();
        let t = trimmed(raw);
        let ghost before = texts(items@);
        proof {
            assert(all[i + n] == raw@);
            assert(t@.skip(1) =~= t@.subrange(1, t.len() as int));
        }
        let item = strip_quotes(trimmed(slice_subrange(t, 1, t.len())));
        proof {
            let longer = Seq::new((n + 1) as nat, |k: int| dash_text(all[i + k]));
            assert(longer.drop_last() =~= Seq::new(n as nat, |k: int| dash_text(all[i + k])));
            assert(longer.last() == item@);
        }
        if item.len() > 0 {
            items.push(string_of(item));
            proof {
                assert(texts(items@) =~= before.push(item@));
            }
        }
        n = n + 1;
    }
    proof {
        if i + n < lines.len() {
            assert(all[i + n] == lines@[i + n]@);
        }
        lemma_dash_run(all, i as int, n as int);
    }
    (items, n)
}

/// The fields of a profile's front matter, as far as they have been read.
#[verifier::ext_equal]
pub struct FieldsV {
    pub name: Option<Seq<char>>,
    pub description: Option<Seq<char>>,
    pub tools: Option<Seq<Seq<char>>>,
    pub model: Option<Seq<char>>,
    pub thought_level: Option<Seq<char>>,
    pub max_turns: Option<usize>,
    pub inject_agents_md: bool,
}

/// The fields of a front matter without any line.
pub open spec fn no_fields() -> FieldsV {
    FieldsV {
        name: None,
        description: None,
        tools: None,
        model: None,
        thought_level: None,
        max_turns: None,
        inject_agents_md: true,
    }
}

/// The fields after one more of them, with the value `scalar`, or the list
/// `list` where the value is one. A field that is not known changes nothing.
pub open spec fn set_field(
    f: FieldsV,
    key: Seq<char>,
    scalar: Seq<char>,
    list: Option<Seq<Seq<char>>>,
) -> Result<FieldsV, Seq<char>> {
    if key == "name"@ {
        Ok(FieldsV { name: Some(scalar), ..f })
    } else if key == "description"@ {
        Ok(FieldsV { description: Some(scalar), ..f })
    } else if key == "tools"@ {
        let tools = match list {
            Some(l) => Some(l),
            None => if scalar.len() > 0 {
                Some(seq![scalar])
            } else {
                None
            },
        };
        Ok(FieldsV { tools, ..f })
    } else if key == "model"@ {
        Ok(FieldsV { model: model_value(scalar), ..f })
    } else if key == "thoughtLevel"@ || key == "thought_level"@ {
        Ok(
            FieldsV {
                thought_level: if scalar.len() > 0 {
                    Some(scalar)
                } else {
                    None
                },
                ..f
            },
        )
    } else if key == "maxTurns"@ || key == "max_turns"@ {
        match parse_number(scalar, usize::MAX as nat) {
            None => Err("maxTurns 必须是正整数，得到 \""@ + scalar + "\""@),
            Some(n) => if n == 0 {
                Err("maxTurns 必须是正整数（0 不合法）"@)
            } else {
                Ok(FieldsV { max_turns: Some(n as usize), ..f })
            },
        }
    } else if key == "injectAgentsMd"@ || key == "inject_agents_md"@ {
        if scalar == "true"@ {
            Ok(FieldsV { inject_agents_md: true, ..f })
        } else if scalar == "false"@ {
            Ok(FieldsV { inject_agents_md: false, ..f })
        } else {
            Err("injectAgentsMd 只接受 true/false，得到 \""@ + scalar + "\""@)
        }
    } else {
        Ok(f)
    }
}

/// The list that the value `value` of line `i` stands for: an inline list, or
/// the indented list behind an empty value; none where it is a scalar or the
/// indented list has no item.
pub open spec fn field_list(lines: Seq<Seq<char>>, i: int, value: Seq<char>) -> Option<
    Seq<Seq<char>>,
> {
    if value.len() > 0 && value[0] == '[' && value.last() == ']' {
        Some(inline_items(value.subrange(1, value.len() - 1)))
    } else if value.len() == 0 && dash_items(lines, i + 1).len() > 0 {
        Some(dash_items(lines, i + 1))
    } else {
        None
    }
}

/// The fields of the front matter from line `i` on, added to `f`, and the
/// number of the first line behind it; `None` for that number where no closing
/// line is found.
pub open spec fn read_fields(lines: Seq<Seq<char>>, i: int, f: FieldsV) -> Result<
    (FieldsV, Option<int>),
    Seq<char>,
>
    decreases lines.len() - i,
{
    if i < 0 || i >= lines.len() {
        Ok((f, None))
    } else {
        let t = trim(lines[i]);
        if t == "---"@ {
            Ok((f, Some(i + 1)))
        } else if t.len() == 0 || t[0] == '#' {
            read_fields(lines, i + 1, f)
        } else {
            match split_once(t, ':') {
                None => read_fields(lines, i + 1, f),
                Some((k, v)) => {
                    let value = trim(v);
                    let used = if value.len() == 0 {
                        dash_run(lines, i + 1)
                    } else {
                        0
                    };
                    proof {
                        lemma_dash_bound(lines, i + 1);
                    }
                    match set_field(f, trim(k), unquote(value), field_list(lines, i, value)) {
                        Err(e) => Err(e),
                        Ok(g) => read_fields(lines, i + 1 + used, g),
                    }
                },
            }
        }
    }
}

/// `s` without a byte order mark at its start.
pub open spec fn strip_bom(s: Seq<char>) -> Seq<char> {
    if s.len() > 0 && s[0] == '\u{feff}' {
        s.skip(1)
    } else {
        s
    }
}

/// The profile that the fields and the body make, or what is wrong with them.
pub open spec fn finish_profile(f: FieldsV, body: Seq<char>) -> Result<ProfileV, Seq<char>> {
    if f.name is None || f.name->0.len() == 0 {
        Err("frontmatter 缺少必填字段 name"@)
    } else if !is_valid_name(f.name->0) {
        Err(
            "子代理 name \""@ + f.name->0
                + "\" 非法：需匹配 ^[a-zA-Z0-9-]{3,50}$（3-50 位字母/数字/破折号）"@,
        )
    } else if f.description is None || f.description->0.len() == 0 {
        Err("frontmatter 缺少必填字段 description"@)
    } else if body.len() == 0 {
        Err("子代理档案正文（系统提示）为空"@)
    } else {
        Ok(
            ProfileV {
                name: f.name->0,
                description: f.description->0,
                tools: f.tools,
                model: f.model,
                thought_level: f.thought_level,
                max_turns: f.max_turns,
                inject_agents_md: f.inject_agents_md,
                system_prompt: body,
                source: AgentSource::BuiltIn,
            },
        )
    }
}

/// The profile that a Markdown file defines: front matter between two lines
/// `---`, then the system prompt; or what is wrong with the file.
pub open spec fn parse_profile(content: Seq<char>) -> Result<ProfileV, Seq<char>> {
    let all = lines(strip_bom(content));
    if all.len() == 0 || trim(all[0]) != "---"@ {
        Err("子代理档案格式错误：首行必须是 ---（frontmatter 起始）"@)
    } else {
        match read_fields(all, 1, no_fields()) {
            Err(e) => Err(e),
            Ok((f, None)) => Err("子代理档案格式错误：frontmatter 缺少收尾的 --- 行"@),
            Ok((f, Some(i))) => finish_profile(f, trim(join(all.skip(i), "\n"@))),
        }
    }
}

/// The fields of a front matter.
struct Fields {
    name: Option<String>,
    description: Option<String>,
    tools: Option<Vec<String>>,
    model: Option<String>,
    thought_level: Option<String>,
    max_turns: Option<usize>,
    inject_agents_md: bool,
}

impl View for Fields {
    type V = FieldsV;

    closed spec fn view(&self) -> FieldsV {
        FieldsV {
            name: opt_text(self.name),
            description: opt_text(self.description),
            tools: opt_texts(self.tools),
            model: opt_text(self.model),
            thought_level: opt_text(self.thought_level),
            max_turns: self.max_turns,
            inject_agents_md: self.inject_agents_md,
        }
    }
}

/// Adds one field.
fn put_field(f: Fields, key: &[char], scalar: &[char], list: Option<Vec<String>>) -> (r: Result<
    Fields,
    String,
>)
    ensures
        match r {
            Ok(g) => set_field(f@, key@, scalar@, opt_texts(list)) == Ok::<FieldsV, Seq<char>>(g@),
            Err(e) => set_field(f@, key@, scalar@, opt_texts(list)) == Err::<FieldsV, Seq<char>>(
                e@,
            ),
        },
{
    let mut f = f;
    if reads(key, "name") {
        f.name = Some(string_of(scalar));
        Ok(f)
    } else if reads(key, "description") {
        f.description = Some(string_of(scalar));
        Ok(f)
    } else if reads(key, "tools") {
        f.tools = match list {
            Some(l) => Some(l),
            None => if scalar.len() > 0 {
                let mut l: Vec<String> = Vec::new();
                l.push(string_of(scalar));
                proof {
                    assert(texts(l@) =~= seq![scalar@]);
                }
                Some(l)
            } else {
                None
            },
        };
        Ok(f)
    } else if reads(key, "model") {
        f.model = parse_model_value(scalar);
        Ok(f)
    } else if reads(key, "thoughtLevel") || reads(key, "thought_level") {
        f.thought_level = if scalar.len() > 0 {
            Some(string_of(scalar))
        } else {
            None
        };
        Ok(f)
    } else if reads(key, "maxTurns") || reads(key, "max_turns") {
        match number_of(scalar, usize::MAX as u64) {
            None => {
                let mut e = chars_of("maxTurns 必须是正整数，得到 \"");
                push_all(&mut e, scalar);
                push_text(&mut e, "\"");
                Err(string_of(e.as_slice()))
            },
            Some(n) => if n == 0 {
                Err("maxTurns 必须是正整数（0 不合法）".to_owned())
            } else {
                f.max_turns = Some(n as usize);
                Ok(f)
            },
        }
    } else if reads(key, "injectAgentsMd") || reads(key, "inject_agents_md") {
        if reads(scalar, "true") {
            f.inject_agents_md = true;
            Ok(f)
        } else if reads(scalar, "false") {
            f.inject_agents_md = false;
            Ok(f)
        } else {
            let mut e = chars_of("injectAgentsMd 只接受 true/false，得到 \"");
            push_all(&mut e, scalar);
            push_text(&mut e, "\"");
            Err(string_of(e.as_slice()))
        }
    } else {
        Ok(f)
    }
}

/// Makes a profile of the fields and the body.
fn make_profile(f: Fields, body: &[char]) -> (r: Result<AgentProfile, String>)
    ensures
        match r {
            Ok(p) => finish_profile(f@, body@) == Ok::<ProfileV, Seq<char>>(p@),
            Err(e) => finish_profile(f@, body@) == Err::<ProfileV, Seq<char>>(e@),
        },
{
    let name = match f.name {
        Some(n) => n,
        None => return Err("frontmatter 缺少必填字段 name".to_owned()),
    };
    if name.as_str().is_empty() {
        return Err("frontmatter 缺少必填字段 name".to_owned());
    }
    if !valid_name(name.as_str()) {
        let mut e = chars_of("子代理 name \"");
        push_text(&mut e, name.as_str());
        push_text(&mut e, "\" 非法：需匹配 ^[a-zA-Z0-9-]{3,50}$（3-50 位字母/数字/破折号）");
        return Err(string_of(e.as_slice()));
    }
    let description = match f.description {
        Some(d) => d,
        None => return Err("frontmatter 缺少必填字段 description".to_owned()),
    };
    if description.as_str().is_empty() {
        return Err("frontmatter 缺少必填字段 description".to_owned());
    }
    if body.len() == 0 {
        return Err("子代理档案正文（系统提示）为空".to_owned());
    }
    Ok(
        AgentProfile {
            name,
            description,
            tools: f.tools,
            model: f.model,
            thought_level: f.thought_level,
            max_turns: f.max_turns,
            inject_agents_md: f.inject_agents_md,
            system_prompt: string_of(body),
            source: AgentSource::BuiltIn,
        },
    )
}

/// Reads a profile from its Markdown file: front matter between two lines
/// `---`, then the system prompt. The front matter has lines `key: value`,
/// inline lists `[a, b]`, indented lists of `- item`, and comments that begin
/// with `#`; unknown keys are ignored.
pub fn parse_agent_markdown(content: &str) -> (r: Result<AgentProfile, String>)
    ensures
        match r {
            Ok(p) => parse_profile(content@) == Ok::<ProfileV, Seq<char>>(p@),
            Err(e) => parse_profile(content@) == Err::<ProfileV, Seq<char>>(e@),
        },
{
    let full = chars_of(content);
    let stripped: &[char] = if full.len() > 0 && full[0] == '\u{feff}' {
        proof {
            assert(full@.skip(1) =~= full@.subrange(1, full.len() as int));
        }
        slice_subrange(full.as_slice(), 1, full.len())
    } else {
        full.as_slice()
    };
    let all = lines_of(stripped);
    let ghost text = lines(strip_bom(content@));
    proof {
        assert(rows(all@) == text);
        assert(all@.len() == rows(all@).len());
    }
    if all.len() == 0 {
        return Err("子代理档案格式错误：首行必须是 ---（frontmatter 起始）".to_owned());
    }
    proof {
        assert(rows(all@)[0] == all@[0]@);
    }
    if !reads(trimmed(all[0].as_slice()), "---") {
        return Err("子代理档案格式错误：首行必须是 ---（frontmatter 起始）".to_owned());
    }
    let mut f = Fields {
        name: None,
        description: None,
        tools: None,
        model: None,
        thought_level: None,
        max_turns: None,
        inject_agents_md: true,
    };
    proof {
        assert(f@ =~= no_fields());
    }
    let mut i: usize = 1;
    while i < all.len()
        invariant
            1 <= i <= all.len(),
            rows(all@) == text,
            text == lines(strip_bom(content@)),
            all.len() > 0,
            trim(text[0]) == "---"@,
            read_fields(text, 1, no_fields()) == read_fields(text, i as int, f@),
        decreases all.len() - i,
    {
        let t = trimmed(all[i].as_slice());
        proof {
            assert(text[i as int] == all@[i as int]@);
        }
        if reads(t, "---") {
            let rest = slice_subrange(all.as_slice(), i + 1, all.len());
            proof {
                assert(rows(rest@) =~= text.skip(i as int + 1));
            }
            let body = joined(rest, "\n");
            return make_profile(f, trimmed(body.as_slice()));
        }
        if t.len() == 0 || t[0] == '#' {
            i = i + 1;
            continue;
        }
        match cut(t, ':') {
            None => {
                i = i + 1;
            },
            Some((k, v)) => {
                let key = trimmed(k);
                let value = trimmed(v);
                let scalar = strip_quotes(value);
                let n = value.len();
                let mut used: usize = 0;
                let list: Option<Vec<String>> = if n > 0 && value[0] == '[' && value[n - 1] == ']' {
                    proof {
                        reveal_brackets(value@);
                    }
                    Some(inline_list(slice_subrange(value, 1, n - 1)))
                } else if n == 0 {
                    let (items, taken) = dash_list(all.as_slice(), i + 1);
                    used = taken;
                    proof {
                        assert(texts(items@).len() == items@.len());
                    }
                    if items.len() > 0 {
                        Some(items)
                    } else {
                        None
                    }
                } else {
                    None
                };
                proof {
                    assert(opt_texts(list) == field_list(text, i as int, value@));
                }
                match put_field(f, key, scalar, list) {
                    Ok(g) => {
                        f = g;
                    },
                    Err(e) => {
                        return Err(e);
                    },
                }
                i = i + 1 + used;
            },
        }
    }
    Err("子代理档案格式错误：frontmatter 缺少收尾的 --- 行".to_owned())
}

/// A value that begins with one bracket and ends with the other has both.
proof fn reveal_brackets(value: Seq<char>)
    requires
        value.len() > 0,
        value[0] == '[',
        value.last() == ']',
    ensures
        value.len() >= 2,
{
}

// ---------------------------------------------------------------------------
// Putting the profiles together
// ---------------------------------------------------------------------------

/// A model and a reasoning level chosen at run time for a profile.
#[derive(Clone, Debug)]
pub struct ModelOverride {
    pub model: Option<String>,
    pub thought_level: Option<String>,
}

/// The choices made at run time, by profile name; no name occurs twice.
#[derive(Clone, Debug)]
pub struct AgentsState {
    pub model_overrides: Vec<(String, ModelOverride)>,
}

/// What an override says: its model and its level.
pub open spec fn override_says(o: ModelOverride) -> (Option<Seq<char>>, Option<Seq<char>>) {
    (opt_text(o.model), opt_text(o.thought_level))
}

/// The overrides as a list of what they say.
pub open spec fn overrides_say(v: Seq<(String, ModelOverride)>) -> Seq<
    (Seq<char>, (Option<Seq<char>>, Option<Seq<char>>)),
> {
    v.map_values(|e: (String, ModelOverride)| (e.0@, override_says(e.1)))
}

impl View for AgentsState {
    type V = Map<Seq<char>, (Option<Seq<char>>, Option<Seq<char>>)>;

    open spec fn view(&self) -> Self::V {
        entries_map(overrides_say(self.model_overrides@))
    }
}

/// The map that a list of entries makes; a later entry replaces an earlier one.
pub open spec fn entries_map(
    v: Seq<(Seq<char>, (Option<Seq<char>>, Option<Seq<char>>))>,
) -> Map<Seq<char>, (Option<Seq<char>>, Option<Seq<char>>)>
    decreases v.len(),
{
    if v.len() == 0 {
        Map::empty()
    } else {
        entries_map(v.drop_last()).insert(v.last().0, v.last().1)
    }
}

impl AgentsState {
    /// Whether no name occurs twice.
    pub open spec fn wf(&self) -> bool {
        distinct_names(self.model_overrides@)
    }
}

/// Whether no name occurs twice.
pub open spec fn distinct_names(v: Seq<(String, ModelOverride)>) -> bool {
    forall|i: int, j: int| 0 <= i < j < v.len() ==> (#[trigger] v[i]).0@ != (#[trigger] v[j]).0@
}

/// What a map of distinct entries holds.
pub proof fn lemma_entries_map(v: Seq<(Seq<char>, (Option<Seq<char>>, Option<Seq<char>>))>)
    requires
        forall|i: int, j: int| 0 <= i < j < v.len() ==> (#[trigger] v[i]).0 != (#[trigger] v[j]).0,
    ensures
        forall|i: int|
            0 <= i < v.len() ==> entries_map(v).dom().contains((#[trigger] v[i]).0) && entries_map(
                v,
            )[v[i].0] == v[i].1,
        forall|k: Seq<char>| #[trigger]
            entries_map(v).dom().contains(k) ==> exists|i: int| 0 <= i < v.len() && v[i].0 == k,
    decreases v.len(),
{
    if v.len() > 0 {
        let h = v.drop_last();
        lemma_entries_map(h);
        assert forall|i: int| 0 <= i < v.len() implies entries_map(v).dom().contains(
            (#[trigger] v[i]).0,
        ) && entries_map(v)[v[i].0] == v[i].1 by {
            if i < v.len() - 1 {
                assert(h[i] == v[i]);
            }
        }
        assert forall|k: Seq<char>| #[trigger] entries_map(v).dom().contains(k) implies exists|
            i: int,
        |
            0 <= i < v.len() && v[i].0 == k by {
            if k == v.last().0 {
                assert(v[v.len() - 1].0 == k);
            } else {
                assert(entries_map(h).dom().contains(k));
                let i = choose|i: int| 0 <= i < h.len() && h[i].0 == k;
                assert(v[i].0 == k);
            }
        }
    }
}

/// `t` trimmed, where something is left of it.
pub open spec fn meant(t: Option<Seq<char>>) -> Option<Seq<char>> {
    match t {
        Some(s) => if trim(s).len() > 0 {
            Some(trim(s))
        } else {
            None
        },
        None => None,
    }
}

/// Trims an optional text; blank is none.
fn meant_of(t: Option<&str>) -> (r: Option<String>)
    ensures
        opt_text(r) == meant(
            match t {
                Some(s) => Some(s@),
                None => None,
            },
        ),
{
    match t {
        Some(s) => {
            let v = chars_of(s);
            let w = trimmed(v.as_slice());
            if w.len() > 0 {
                Some(string_of(w))
            } else {
                None
            }
        },
        None => None,
    }
}

/// The choices after one for `name`: blank texts count as absent, and with
/// both absent the name is forgotten.
pub open spec fn with_override(
    m: Map<Seq<char>, (Option<Seq<char>>, Option<Seq<char>>)>,
    name: Seq<char>,
    model: Option<Seq<char>>,
    level: Option<Seq<char>>,
) -> Map<Seq<char>, (Option<Seq<char>>, Option<Seq<char>>)> {
    if meant(model) is None && meant(level) is None {
        m.remove(name)
    } else {
        m.insert(name, (meant(model), meant(level)))
    }
}

/// An optional text by its characters.
pub open spec fn opt_str(t: Option<&str>) -> Option<Seq<char>> {
    match t {
        Some(s) => Some(s@),
        None => None,
    }
}

/// Takes the entry of `name` out of a list of distinct entries.
fn forget(entries: Vec<(String, ModelOverride)>, name: &str) -> (r: Vec<(String, ModelOverride)>)
    requires
        distinct_names(entries@),
    ensures
        distinct_names(r@),
        entries_map(overrides_say(r@)) =~= entries_map(overrides_say(entries@)).remove(name@),
        forall|i: int| 0 <= i < r@.len() ==> (#[trigger] r@[i]).0@ != name@,
{
    let ghost all = entries@;
    let mut entries = entries;
    let mut k: usize = 0;
    while k < entries.len()
        invariant_except_break
            k <= entries.len(),
            entries@ == all,
            forall|i: int| 0 <= i < k ==> (#[trigger] all[i]).0@ != name@,
        ensures
            (entries@ == all && (forall|i: int| 0 <= i < all.len() ==> (#[trigger] all[i]).0@ != name@))
                || (k < all.len() && all[k as int].0@ == name@ && entries@ == all.remove(k as int)),
        decreases entries.len() - k,
    {
        if str_eq(entries[k].0.as_str(), name) {
            let _gone = entries.remove(k);
            break;
        }
        k = k + 1;
    }
    proof {
        let v = overrides_say(all);
        let w = overrides_say(entries@);
        assert forall|i: int, j: int| 0 <= i < j < v.len() implies (#[trigger] v[i]).0 != (
        #[trigger] v[j]).0 by {
            assert(all[i].0@ != all[j].0@);
        }
        lemma_entries_map(v);
        assert forall|i: int, j: int| 0 <= i < j < entries@.len() implies (#[trigger] entries@[i]).0@
            != (#[trigger] entries@[j]).0@ by {
            let gone = entries@ != all;
            let i2 = if gone && i >= k { i + 1 } else { i };
            let j2 = if gone && j >= k { j + 1 } else { j };
            if gone {
                assert(entries@[i] == all[i2]);
                assert(entries@[j] == all[j2]);
            }
            assert(all[i2].0@ != all[j2].0@);
        }
        assert forall|i: int, j: int| 0 <= i < j < w.len() implies (#[trigger] w[i]).0 != (
        #[trigger] w[j]).0 by {
            assert(entries@[i].0@ != entries@[j].0@);
        }
        lemma_entries_map(w);
        if entries@ == all {
            assert(!entries_map(v).dom().contains(name@));
            assert(entries_map(w) =~= entries_map(v).remove(name@));
        } else {
            assert(w =~= v.remove(k as int));
            assert forall|i: int| 0 <= i < entries@.len() implies (#[trigger] entries@[i]).0@ != name@ by {
                let i2 = if i >= k { i + 1 } else { i };
                assert(entries@[i] == all[i2]);
                if i2 < k {
                    assert(all[i2].0@ != all[k as int].0@);
                } else {
                    assert(all[k as int].0@ != all[i2].0@);
                }
            }
            let m = entries_map(v).remove(name@);
            let mw = entries_map(w);
            assert forall|q: Seq<char>| #[trigger] mw.dom().contains(q) == m.dom().contains(q) by {
                if mw.dom().contains(q) {
                    let i = choose|i: int| 0 <= i < w.len() && w[i].0 == q;
                    let i2 = if i >= k { i + 1 } else { i };
                    assert(w[i] == v[i2]);
                    assert(entries@[i].0@ != name@);
                    assert(entries_map(v).dom().contains(v[i2].0));
                }
                if m.dom().contains(q) {
                    let i = choose|i: int| 0 <= i < v.len() && v[i].0 == q;
                    let i2 = if i > k { i - 1 } else { i };
                    assert(v[k as int].0 == name@);
                    assert(w[i2] == v[i]);
                    assert(entries_map(w).dom().contains(w[i2].0));
                }
            }
            assert forall|q: Seq<char>| mw.dom().contains(q) implies #[trigger] mw[q] == m[q] by {
                let i = choose|i: int| 0 <= i < w.len() && w[i].0 == q;
                let i2 = if i >= k { i + 1 } else { i };
                assert(w[i] == v[i2]);
                assert(entries@[i].0@ != name@);
                assert(entries_map(v)[v[i2].0] == v[i2].1);
            }
            assert(mw =~= m);
        }
    }
    entries
}

/// Makes one choice: for `name` the model and the level, or no choice where
/// both are absent or blank.
pub fn set_model_override(
    state: AgentsState,
    name: &str,
    model: Option<&str>,
    thought_level: Option<&str>,
) -> (r: AgentsState)
    requires
        state.wf(),
    ensures
        r.wf(),
        r@ == with_override(state@, name@, opt_str(model), opt_str(thought_level)),
{
    let m = meant_of(model);
    let l = meant_of(thought_level);
    let mut rest = forget(state.model_overrides, name);
    if m.is_none() && l.is_none() {
        return AgentsState { model_overrides: rest };
    }
    let ghost before = rest@;
    rest.push((name.to_owned(), ModelOverride { model: m, thought_level: l }));
    proof {
        let v = overrides_say(rest@);
        assert(v.drop_last() =~= overrides_say(before));
        assert(v.last() == (name@, (opt_text(m), opt_text(l))));
        assert forall|i: int, j: int| 0 <= i < j < rest@.len() implies (#[trigger] rest@[i]).0@ != (
        #[trigger] rest@[j]).0@ by {
            assert(rest@[i] == before[i]);
            if j < before.len() {
                assert(rest@[j] == before[j]);
            }
        }
        assert(entries_map(v) =~= with_override(
            state@,
            name@,
            opt_str(model),
            opt_str(thought_level),
        ));
    }
    AgentsState { model_overrides: rest }
}

/// Whether `a` comes strictly before `b`.
pub open spec fn text_lt(a: Seq<char>, b: Seq<char>) -> bool {
    text_le(a, b) && a != b
}

/// Whether the names of `v` ascend, none occurring twice.
pub open spec fn names_ascend(v: Seq<ProfileV>) -> bool {
    forall|i: int, j: int|
        0 <= i < j < v.len() ==> text_lt((#[trigger] v[i]).name, (#[trigger] v[j]).name)
}

/// Whether `v` lists exactly the profiles of `m`, each under its name.
pub open spec fn lists(v: Seq<ProfileV>, m: Map<Seq<char>, ProfileV>) -> bool {
    &&& forall|i: int|
        0 <= i < v.len() ==> m.dom().contains((#[trigger] v[i]).name) && m[v[i].name] == v[i]
    &&& forall|n: Seq<char>| #[trigger]
        m.dom().contains(n) ==> exists|i: int| 0 <= i < v.len() && (#[trigger] v[i]).name == n
}

/// `m` with the profiles that the files `contents` define, each from `source`
/// and in place of one of the same name; files that define none are skipped.
pub open spec fn with_files(
    m: Map<Seq<char>, ProfileV>,
    contents: Seq<Seq<char>>,
    source: AgentSource,
) -> Map<Seq<char>, ProfileV>
    decreases contents.len(),
{
    if contents.len() == 0 {
        m
    } else {
        let before = with_files(m, contents.drop_last(), source);
        match parse_profile(contents.last()) {
            Ok(p) => before.insert(p.name, ProfileV { source, ..p }),
            Err(_e) => before,
        }
    }
}

/// The built-in profiles by name.
pub open spec fn builtin_map() -> Map<Seq<char>, ProfileV> {
    Map::empty().insert(general_profile().name, general_profile()).insert(
        explore_profile().name,
        explore_profile(),
    )
}

/// `t`, where it is not blank.
pub open spec fn not_blank(t: Option<Seq<char>>) -> Option<Seq<char>> {
    match t {
        Some(s) => if trim(s).len() > 0 {
            Some(s)
        } else {
            None
        },
        None => None,
    }
}

/// A profile with the choices made for it at run time: they count only where
/// the profile itself names no model.
pub open spec fn with_choice(
    p: ProfileV,
    state: Map<Seq<char>, (Option<Seq<char>>, Option<Seq<char>>)>,
) -> ProfileV {
    if p.model is Some || !state.dom().contains(p.name) {
        p
    } else {
        let (model, level) = state[p.name];
        ProfileV {
            model: not_blank(model),
            thought_level: if not_blank(level) is Some {
                not_blank(level)
            } else {
                p.thought_level
            },
            ..p
        }
    }
}

/// All profiles by name: a project's file replaces a user's, which replaces a
/// built-in one; then the choices made at run time apply.
pub open spec fn catalog(
    user: Seq<Seq<char>>,
    project: Seq<Seq<char>>,
    state: Map<Seq<char>, (Option<Seq<char>>, Option<Seq<char>>)>,
) -> Map<Seq<char>, ProfileV> {
    let files = with_files(
        with_files(builtin_map(), user, AgentSource::User),
        project,
        AgentSource::Project,
    );
    Map::new(|n: Seq<char>| files.dom().contains(n), |n: Seq<char>| with_choice(files[n], state))
}

/// Puts a profile into its place in an ascending list, in place of one of the
/// same name.
fn put_profile(list: Vec<AgentProfile>, p: AgentProfile) -> (r: Vec<AgentProfile>)
    requires
        names_ascend(profiles_say(list@)),
    ensures
        names_ascend(profiles_say(r@)),
        forall|m: Map<Seq<char>, ProfileV>| #[trigger]
            lists(profiles_say(list@), m) ==> lists(profiles_say(r@), m.insert(p@.name, p@)),
{
    let ghost v = profiles_say(list@);
    let mut list = list;
    let mut k: usize = 0;
    let name = chars_of(p.name.as_str());
    while k < list.len() && !text_before(
        name.as_slice(),
        chars_of(list[k].name.as_str()).as_slice(),
    )
        invariant
            k <= list.len(),
            v == profiles_say(list@),
            name@ == p@.name,
            forall|i: int| 0 <= i < k ==> !text_le(p@.name, (#[trigger] v[i]).name),
        decreases list.len() - k,
    {
        proof {
            assert(v[k as int].name == list@[k as int].name@);
        }
        k = k + 1;
    }
    proof {
        assert forall|i: int| 0 <= i < k implies text_lt((#[trigger] v[i]).name, p@.name) by {
            crate::order::lemma_text_le_total(p@.name, v[i].name);
        }
        if k < list.len() {
            assert(v[k as int].name == list@[k as int].name@);
        }
        assert forall|i: int| k < i < v.len() implies text_lt(p@.name, (#[trigger] v[i]).name) by {
            assert(text_lt(v[k as int].name, v[i].name));
            crate::order::lemma_text_le_trans(p@.name, v[k as int].name, v[i].name);
            if p@.name == v[i].name {
                crate::order::lemma_text_le_antisym(v[k as int].name, v[i].name);
            }
        }
    }
    if k < list.len() && str_eq(list[k].name.as_str(), p.name.as_str()) {
        list[k] = p;
        proof {
            let w = profiles_say(list@);
            assert(w =~= v.update(k as int, p@));
            assert forall|m: Map<Seq<char>, ProfileV>| #[trigger] lists(v, m) implies lists(
                w,
                m.insert(p@.name, p@),
            ) by {
                lemma_lists_update(v, m, k as int, p@);
            }
        }
    } else {
        list.insert(k, p);
        proof {
            let w = profiles_say(list@);
            assert(w =~= v.insert(k as int, p@));
            assert forall|i: int, j: int| 0 <= i < j < w.len() implies text_lt(
                (#[trigger] w[i]).name,
                (#[trigger] w[j]).name,
            ) by {
                let i2 = if i > k { i - 1 } else { i };
                let j2 = if j > k { j - 1 } else { j };
                if i != k && j != k {
                    assert(text_lt(v[i2].name, v[j2].name));
                } else if i == k {
                    assert(w[j] == v[j2]);
                    if j2 == k {
                        assert(text_le(p@.name, v[k as int].name));
                    }
                } else {
                    assert(w[i] == v[i]);
                }
            }
            assert forall|m: Map<Seq<char>, ProfileV>| #[trigger] lists(v, m) implies lists(
                w,
                m.insert(p@.name, p@),
            ) by {
                lemma_lists_insert(v, m, k as int, p@);
            }
        }
    }
    list
}

/// Replacing the profile of a name.
proof fn lemma_lists_update(v: Seq<ProfileV>, m: Map<Seq<char>, ProfileV>, k: int, p: ProfileV)
    requires
        lists(v, m),
        names_ascend(v),
        0 <= k < v.len(),
        v[k].name == p.name,
    ensures
        lists(v.update(k, p), m.insert(p.name, p)),
{
    let w = v.update(k, p);
    let n = m.insert(p.name, p);
    assert forall|i: int| 0 <= i < w.len() implies n.dom().contains((#[trigger] w[i]).name)
        && n[w[i].name] == w[i] by {
        if i != k {
            assert(w[i] == v[i]);
            if i < k {
                assert(text_lt(v[i].name, v[k].name));
            } else {
                assert(text_lt(v[k].name, v[i].name));
            }
        }
    }
    assert forall|q: Seq<char>| #[trigger] n.dom().contains(q) implies exists|i: int|
        0 <= i < w.len() && (#[trigger] w[i]).name == q by {
        if q == p.name {
            assert(w[k].name == q);
        } else {
            assert(m.dom().contains(q));
            let i = choose|i: int| 0 <= i < v.len() && (#[trigger] v[i]).name == q;
            assert(w[i].name == q);
        }
    }
}

/// Adding a profile under a new name.
proof fn lemma_lists_insert(v: Seq<ProfileV>, m: Map<Seq<char>, ProfileV>, k: int, p: ProfileV)
    requires
        lists(v, m),
        0 <= k <= v.len(),
        forall|i: int| 0 <= i < v.len() ==> (#[trigger] v[i]).name != p.name,
    ensures
        lists(v.insert(k, p), m.insert(p.name, p)),
{
    let w = v.insert(k, p);
    let n = m.insert(p.name, p);
    assert forall|i: int| 0 <= i < w.len() implies n.dom().contains((#[trigger] w[i]).name)
        && n[w[i].name] == w[i] by {
        if i != k {
            let i2 = if i > k { i - 1 } else { i };
            assert(w[i] == v[i2]);
        }
    }
    assert forall|q: Seq<char>| #[trigger] n.dom().contains(q) implies exists|i: int|
        0 <= i < w.len() && (#[trigger] w[i]).name == q by {
        if q == p.name {
            assert(w[k].name == q);
        } else {
            assert(m.dom().contains(q));
            let i = choose|i: int| 0 <= i < v.len() && (#[trigger] v[i]).name == q;
            let i2 = if i >= k { i + 1 } else { i };
            assert(w[i2].name == q);
        }
    }
}

/// Puts the profiles that files define into an ascending list.
fn put_files(list: Vec<AgentProfile>, contents: &[String], source: AgentSource) -> (r: Vec<
    AgentProfile,
>)
    requires
        names_ascend(profiles_say(list@)),
    ensures
        names_ascend(profiles_say(r@)),
        forall|m: Map<Seq<char>, ProfileV>| #[trigger]
            lists(profiles_say(list@), m) ==> lists(
                profiles_say(r@),
                with_files(m, texts(contents@), source),
            ),
{
    let ghost v = profiles_say(list@);
    let mut list = list;
    for i in 0..contents.len()
        invariant
            names_ascend(profiles_say(list@)),
            forall|m: Map<Seq<char>, ProfileV>| #[trigger]
                lists(v, m) ==> lists(
                    profiles_say(list@),
                    with_files(m, texts(contents@).take(i as int), source),
                ),
    {
        let ghost c = texts(contents@);
        proof {
            assert(c.take(i as int + 1).drop_last() =~= c.take(i as int));
            assert(c.take(i as int + 1).last() == contents@[i as int]@);
        }
        let ghost before = profiles_say(list@);
        match parse_agent_markdown(contents[i].as_str()) {
            Ok(p) => {
                let mut p = p;
                p.source = source;
                list = put_profile(list, p);
                proof {
                    assert forall|m: Map<Seq<char>, ProfileV>| #[trigger] lists(v, m) implies lists(
                        profiles_say(list@),
                        with_files(m, c.take(i as int + 1), source),
                    ) by {
                        let q = with_files(m, c.take(i as int), source);
                        assert(lists(before, q));
                    }
                }
            },
            Err(_e) => {},
        }
    }
    proof {
        assert(texts(contents@).take(contents@.len() as int) =~= texts(contents@));
    }
    list
}

/// Looks up the choice made for `name`.
fn choice_of(state: &AgentsState, name: &str) -> (r: Option<usize>)
    requires
        state.wf(),
    ensures
        match r {
            Some(i) => i < state.model_overrides@.len() && state@.dom().contains(name@) && state@[name@]
                == override_says(state.model_overrides@[i as int].1),
            None => !state@.dom().contains(name@),
        },
{
    let ghost v = overrides_say(state.model_overrides@);
    proof {
        assert forall|i: int, j: int| 0 <= i < j < v.len() implies (#[trigger] v[i]).0 != (
        #[trigger] v[j]).0 by {
            assert(state.model_overrides@[i].0@ != state.model_overrides@[j].0@);
        }
        lemma_entries_map(v);
    }
    for i in 0..state.model_overrides.len()
        invariant
            v == overrides_say(state.model_overrides@),
            forall|k: int| 0 <= k < i ==> (#[trigger] v[k]).0 != name@,
            forall|i: int|
                0 <= i < v.len() ==> entries_map(v).dom().contains((#[trigger] v[i]).0)
                    && entries_map(v)[v[i].0] == v[i].1,
    {
        if str_eq(state.model_overrides[i].0.as_str(), name) {
            proof {
                assert(v[i as int].0 == name@);
            }
            return Some(i);
        }
    }
    None
}

/// Keeps an optional string where it is not blank.
fn kept(t: &Option<String>) -> (r: Option<String>)
    ensures
        opt_text(r) == not_blank(opt_text(*t)),
{
    match t {
        Some(s) => {
            let v = chars_of(s.as_str());
            if trimmed(v.as_slice()).len() > 0 {
                Some(s.clone())
            } else {
                None
            }
        },
        None => None,
    }
}

/// All profiles in the order of their names. `user` and `project` are the
/// contents of the profile files of the two directories, in the order of their
/// file names: a project's file replaces a user's of the same name, which
/// replaces a built-in one. The choices made at run time apply last, to those
/// that name no model themselves.
pub fn load_profiles(user: &[String], project: &[String], state: &AgentsState) -> (r: Vec<
    AgentProfile,
>)
    requires
        state.wf(),
    ensures
        names_ascend(profiles_say(r@)),
        lists(profiles_say(r@), catalog(texts(user@), texts(project@), state@)),
{
    let builtins = builtin_profiles();
    let mut list: Vec<AgentProfile> = Vec::new();
    let ghost empty = Map::<Seq<char>, ProfileV>::empty();
    proof {
        assert(lists(profiles_say(list@), empty));
        assert(profiles_say(builtins@).len() == builtins@.len());
        assert(profiles_say(builtins@)[0] == builtins@[0]@);
        assert(profiles_say(builtins@)[1] == builtins@[1]@);
    }
    list = put_profile(list, builtins[0].copy());
    proof {
        assert(lists(
            profiles_say(list@),
            empty.insert(general_profile().name, general_profile()),
        ));
    }
    list = put_profile(list, builtins[1].copy());
    proof {
        assert(lists(profiles_say(list@), builtin_map()));
    }
    list = put_files(list, user, AgentSource::User);
    list = put_files(list, project, AgentSource::Project);
    let ghost files = with_files(
        with_files(builtin_map(), texts(user@), AgentSource::User),
        texts(project@),
        AgentSource::Project,
    );
    let ghost v = profiles_say(list@);
    proof {
        assert(lists(v, files));
    }
    let n: usize = list.len();
    for i in 0..n
        invariant
            state.wf(),
            n == list@.len(),
            v.len() == n,
            forall|k: int|
                0 <= k < i ==> (#[trigger] list@[k])@ == with_choice(v[k], state@),
            forall|k: int| i <= k < list@.len() ==> (#[trigger] list@[k])@ == v[k],
    {
        let mut p = list[i].copy();
        if p.model.is_none() {
            match choice_of(state, p.name.as_str()) {
                Some(k) => {
                    let o = &state.model_overrides[k].1;
                    p.model = kept(&o.model);
                    let level = kept(&o.thought_level);
                    if level.is_some() {
                        p.thought_level = level;
                    }
                },
                None => {},
            }
        }
        proof {
            assert(p@ =~= with_choice(v[i as int], state@));
        }
        list[i] = p;
    }
    proof {
        let w = profiles_say(list@);
        let m = catalog(texts(user@), texts(project@), state@);
        assert forall|i: int| 0 <= i < w.len() implies #[trigger] w[i] == with_choice(
            v[i],
            state@,
        ) by {
            assert(list@[i]@ == with_choice(v[i], state@));
        }
        assert forall|i: int, j: int| 0 <= i < j < w.len() implies text_lt(
            (#[trigger] w[i]).name,
            (#[trigger] w[j]).name,
        ) by {
            assert(text_lt(v[i].name, v[j].name));
        }
        assert forall|i: int| 0 <= i < w.len() implies m.dom().contains((#[trigger] w[i]).name)
            && m[w[i].name] == w[i] by {
            assert(files.dom().contains(v[i].name));
        }
        assert forall|n: Seq<char>| #[trigger] m.dom().contains(n) implies exists|i: int|
            0 <= i < w.len() && (#[trigger] w[i]).name == n by {
            assert(files.dom().contains(n));
            let i = choose|i: int| 0 <= i < v.len() && (#[trigger] v[i]).name == n;
            assert(w[i].name == n);
        }
    }
    list
}

// ---------------------------------------------------------------------------
// Finding a profile, its tools and its model
// ---------------------------------------------------------------------------

/// What `char::to_lowercase` yields for a character.
pub uninterp spec fn lowercase_of(c: char) -> Seq<char>;

/// Calls `char::to_lowercase`: the characters of the lower-case form, a
/// function of the character, named `lowercase_of`. An ASCII character has
/// its ASCII lower-case form.
#[verifier::external_body]
fn lowercase_chars(c: char) -> (r: Vec<char>)
    ensures
        r@ == lowercase_of(c),
        (c as u32) < 128 ==> r@ == seq![lower_char(c)],
{
    c.to_lowercase().collect()
}

/// A name in lower case, without white space, dashes and underscores.
pub open spec fn plain_name(s: Seq<char>) -> Seq<char>
    decreases s.len(),
{
    if s.len() == 0 {
        Seq::empty()
    } else if is_white(s.last()) || s.last() == '-' || s.last() == '_' {
        plain_name(s.drop_last())
    } else {
        plain_name(s.drop_last()) + lowercase_of(s.last())
    }
}

/// Reduces a name to what names are compared by.
pub fn normalize_name(s: &str) -> (r: Vec<char>)
    ensures
        r@ == plain_name(s@),
{
    let v = chars_of(s);
    let mut out: Vec<char> = Vec::new();
    for i in 0..v.len()
        invariant
            out@ == plain_name(v@.take(i as int)),
    {
        let c = v[i];
        proof {
            assert(v@.take(i as int + 1).drop_last() =~= v@.take(i as int));
        }
        if !white(c) && c != '-' && c != '_' {
            let l = lowercase_chars(c);
            push_all(&mut out, l.as_slice());
        }
    }
    proof {
        assert(v@.take(v@.len() as int) =~= v@);
    }
    out
}

/// The names of profiles.
pub open spec fn names(v: Seq<AgentProfile>) -> Seq<Seq<char>> {
    v.map_values(|p: AgentProfile| p.name@)
}

/// The first index at or after `i` at which `v` holds `x`.
pub open spec fn first_index(v: Seq<Seq<char>>, x: Seq<char>, i: int) -> Option<int>
    decreases v.len() - i,
{
    if i < 0 || i >= v.len() {
        None
    } else if v[i] == x {
        Some(i)
    } else {
        first_index(v, x, i + 1)
    }
}

/// The indices, in order, of the names of `v` that reduce to `plain`.
pub open spec fn plain_hits(v: Seq<Seq<char>>, plain: Seq<char>) -> Seq<int>
    decreases v.len(),
{
    if v.len() == 0 {
        Seq::empty()
    } else if plain_name(v.last()) == plain {
        plain_hits(v.drop_last(), plain).push(v.len() - 1)
    } else {
        plain_hits(v.drop_last(), plain)
    }
}

/// Which profile a query means: the first whose name it is, else the only one
/// whose name reduces to the same; or the message that none or several do.
pub open spec fn profile_meant(v: Seq<Seq<char>>, query: Seq<char>) -> Result<int, Seq<char>> {
    match first_index(v, query, 0) {
        Some(i) => Ok(i),
        None => {
            let hits = plain_hits(v, plain_name(query));
            if hits.len() == 0 {
                Err("未找到子代理 \""@ + query + "\"。可用: "@ + join(v, ", "@))
            } else if hits.len() == 1 {
                Ok(hits[0])
            } else {
                Err(
                    "\""@ + query + "\" 匹配到多个子代理: "@ + join(
                        hits.map_values(|i: int| v[i]),
                        ", "@,
                    ),
                )
            }
        },
    }
}

/// Every hit is a position whose name reduces to the query.
pub proof fn lemma_plain_hits(v: Seq<Seq<char>>, plain: Seq<char>)
    ensures
        forall|k: int|
            0 <= k < plain_hits(v, plain).len() ==> 0 <= #[trigger] plain_hits(v, plain)[k] < v.len()
                && plain_name(v[plain_hits(v, plain)[k]]) == plain,
    decreases v.len(),
{
    if v.len() > 0 {
        lemma_plain_hits(v.drop_last(), plain);
        let h = plain_hits(v.drop_last(), plain);
        assert forall|k: int| 0 <= k < plain_hits(v, plain).len() implies 0
            <= #[trigger] plain_hits(v, plain)[k] < v.len() && plain_name(
            v[plain_hits(v, plain)[k]],
        ) == plain by {
            if k < h.len() {
                assert(plain_hits(v, plain)[k] == h[k]);
                assert(v.drop_last()[h[k]] == v[h[k]]);
            }
        }
    }
}

/// Finds a profile by its name, or by what the name reduces to where no name
/// matches exactly.
pub fn find_profile<'a>(profiles: &'a [AgentProfile], query: &str) -> (r: Result<
    &'a AgentProfile,
    String,
>)
    ensures
        match r {
            Ok(p) => profile_meant(names(profiles@), query@) matches Ok(i) && 0 <= i
                < profiles@.len() && *p == profiles@[i],
            Err(e) => profile_meant(names(profiles@), query@) == Err::<int, Seq<char>>(e@),
        },
{
    let ghost v = names(profiles@);
    for i in 0..profiles.len()
        invariant
            v == names(profiles@),
            first_index(v, query@, 0) == first_index(v, query@, i as int),
    {
        if str_eq(profiles[i].name.as_str(), query) {
            proof {
                assert(v[i as int] == profiles@[i as int].name@);
            }
            return Ok(&profiles[i]);
        }
    }
    let plain = normalize_name(query);
    let mut hits: Vec<usize> = Vec::new();
    let mut hit_names: Vec<Vec<char>> = Vec::new();
    let mut all_names: Vec<Vec<char>> = Vec::new();
    let ghost plain_query = plain_name(query@);
    proof {
        assert(hits@.map_values(|h: usize| h as int) =~= plain_hits(v.take(0), plain_query));
        assert(rows(hit_names@) =~= plain_hits(v.take(0), plain_query).map_values(|h: int| v[h]));
        assert(rows(all_names@) =~= v.take(0));
    }
    for i in 0..profiles.len()
        invariant
            v == names(profiles@),
            plain@ == plain_query,
            hits@.map_values(|h: usize| h as int) == plain_hits(v.take(i as int), plain_query),
            rows(hit_names@) == plain_hits(v.take(i as int), plain_query).map_values(
                |h: int| v[h],
            ),
            rows(all_names@) == v.take(i as int),
    {
        let ghost before = hits@.map_values(|h: usize| h as int);
        let ghost names_before = rows(hit_names@);
        let ghost all_before = rows(all_names@);
        proof {
            assert(v[i as int] == profiles@[i as int].name@);
            assert(v.take(i as int + 1).drop_last() =~= v.take(i as int));
        }
        let n = normalize_name(profiles[i].name.as_str());
        if same(n.as_slice(), plain.as_slice()) {
            hits.push(i);
            hit_names.push(chars_of(profiles[i].name.as_str()));
            proof {
                assert(hits@.map_values(|h: usize| h as int) =~= before.push(i as int));
                assert(rows(hit_names@) =~= names_before.push(v[i as int]));
                assert(rows(hit_names@) =~= plain_hits(
                    v.take(i as int + 1),
                    plain_query,
                ).map_values(|h: int| v[h]));
            }
        }
        all_names.push(chars_of(profiles[i].name.as_str()));
        proof {
            assert(rows(all_names@) =~= v.take(i as int + 1));
        }
    }
    proof {
        assert(v.take(profiles@.len() as int) =~= v);
        lemma_plain_hits(v, plain_query);
        assert(hits@.len() == plain_hits(v, plain_query).len());
    }
    if hits.len() == 0 {
        let mut e = chars_of("未找到子代理 \"");
        push_text(&mut e, query);
        push_text(&mut e, "\"。可用: ");
        let l = joined(all_names.as_slice(), ", ");
        push_all(&mut e, l.as_slice());
        Err(string_of(e.as_slice()))
    } else if hits.len() == 1 {
        proof {
            assert(hits@.map_values(|h: usize| h as int)[0] == hits@[0] as int);
        }
        Ok(&profiles[hits[0]])
    } else {
        let mut e = chars_of("\"");
        push_text(&mut e, query);
        push_text(&mut e, "\" 匹配到多个子代理: ");
        let l = joined(hit_names.as_slice(), ", ");
        push_all(&mut e, l.as_slice());
        Err(string_of(e.as_slice()))
    }
}

/// The tools that no subagent has: they would nest delegation, lock the
/// parent's plan mode or block the parent's turn.
pub open spec fn is_forbidden_child_tool(name: Seq<char>) -> bool {
    name == "Agent"@ || name == "EnterPlanMode"@ || name == "ExitPlanMode"@ || name
        == "AskUserQuestion"@
}

/// Whether no subagent has the tool.
pub fn forbidden_child_tool(name: &str) -> (r: bool)
    ensures
        r == is_forbidden_child_tool(name@),
{
    str_eq(name, "Agent") || str_eq(name, "EnterPlanMode") || str_eq(name, "ExitPlanMode")
        || str_eq(name, "AskUserQuestion")
}

/// Whether a profile's list leaves every tool in: there is none, or it has
/// `*`.
pub open spec fn all_tools(tools: Option<Seq<Seq<char>>>) -> bool {
    match tools {
        Some(l) => l.contains("*"@),
        None => true,
    }
}

/// Whether a subagent of this profile may have the tool `name`.
pub open spec fn child_may(tools: Option<Seq<Seq<char>>>, input_image: bool, name: Seq<char>) -> bool {
    (all_tools(tools) || tools->0.contains(name)) && !is_forbidden_child_tool(name) && (input_image
        || name != "ReadMediaFile"@)
}

/// The tools of a subagent: those of `all_tool_names` that its profile leaves
/// in, without the forbidden ones, and without `ReadMediaFile` where the model
/// takes no images.
pub fn child_tool_set(profile: &AgentProfile, all_tool_names: &[String], input_image: bool) -> (r:
    Vec<String>)
    ensures
        texts(r@) == texts(all_tool_names@).filter(
            |n: Seq<char>| child_may(profile@.tools, input_image, n),
        ),
{
    let every = match &profile.tools {
        Some(l) => holds_text(l.as_slice(), "*"),
        None => true,
    };
    let ghost may = |n: Seq<char>| child_may(profile@.tools, input_image, n);
    let mut out: Vec<String> = Vec::new();
    proof {
        reveal(Seq::filter);
        assert(texts(out@) =~= texts(all_tool_names@).take(0).filter(may));
    }
    for i in 0..all_tool_names.len()
        invariant
            every == all_tools(profile@.tools),
            may == (|n: Seq<char>| child_may(profile@.tools, input_image, n)),
            texts(out@) == texts(all_tool_names@).take(i as int).filter(may),
    {
        let name = all_tool_names[i].as_str();
        let listed = every || match &profile.tools {
            Some(l) => holds_text(l.as_slice(), name),
            None => true,
        };
        let ghost before = texts(out@);
        let ghost t = texts(all_tool_names@).take(i as int + 1);
        proof {
            reveal(Seq::filter);
            assert(t.drop_last() =~= texts(all_tool_names@).take(i as int));
            assert(t.last() == name@);
        }
        if listed && !forbidden_child_tool(name) && (input_image || !str_eq(
            name,
            "ReadMediaFile",
        )) {
            out.push(all_tool_names[i].clone());
            proof {
                assert(texts(out@) =~= before.push(name@));
            }
        }
    }
    proof {
        assert(texts(all_tool_names@).take(all_tool_names@.len() as int) =~= texts(
            all_tool_names@,
        ));
    }
    out
}

/// How the tools of a profile are shown.
pub open spec fn tools_label(tools: Option<Seq<Seq<char>>>) -> Seq<char> {
    if all_tools(tools) {
        "全部"@
    } else if tools->0.len() == 0 {
        "无"@
    } else {
        join(tools->0, ", "@)
    }
}

/// The line that presents a profile to the main model.
pub open spec fn profile_line(p: ProfileV) -> Seq<char> {
    "- "@ + p.name + ": "@ + p.description + "（工具: "@ + tools_label(p.tools) + "）"@
}

/// The list that presents profiles to the main model, a line each.
pub fn agent_description_list(profiles: &[AgentProfile]) -> (r: String)
    ensures
        r@ == join(profiles_say(profiles@).map_values(|p: ProfileV| profile_line(p)), "\n"@),
{
    let ghost want = profiles_say(profiles@).map_values(|p: ProfileV| profile_line(p));
    let mut out: Vec<Vec<char>> = Vec::new();
    for i in 0..profiles.len()
        invariant
            want == profiles_say(profiles@).map_values(|p: ProfileV| profile_line(p)),
            rows(out@) == want.take(i as int),
    {
        let p = &profiles[i];
        let ghost before = rows(out@);
        let label: Vec<char> = match &p.tools {
            None => chars_of("全部"),
            Some(l) => if holds_text(l.as_slice(), "*") {
                chars_of("全部")
            } else if l.len() == 0 {
                chars_of("无")
            } else {
                joined_strings(l.as_slice(), ", ")
            },
        };
        let mut line = chars_of("- ");
        push_text(&mut line, p.name.as_str());
        push_text(&mut line, ": ");
        push_text(&mut line, p.description.as_str());
        push_text(&mut line, "（工具: ");
        push_all(&mut line, label.as_slice());
        push_text(&mut line, "）");
        proof {
            assert(label@ == tools_label(p@.tools));
            assert(profiles_say(profiles@)[i as int] == p@);
            assert(line@ =~= profile_line(p@));
        }
        out.push(line);
        proof {
            assert(rows(out@) =~= before.push(want[i as int]));
            assert(want.take(i as int + 1) =~= want.take(i as int).push(want[i as int]));
        }
    }
    proof {
        assert(want.take(profiles@.len() as int) =~= want);
    }
    let text = joined(out.as_slice(), "\n");
    string_of(text.as_slice())
}

/// The first enabled provider at or after `i` with the id `id`.
pub open spec fn provider_at(v: Seq<ProviderConfig>, id: Seq<char>, i: int) -> Option<int>
    decreases v.len() - i,
{
    if i < 0 || i >= v.len() {
        None
    } else if v[i].enabled && v[i].id@ == id {
        Some(i)
    } else {
        provider_at(v, id, i + 1)
    }
}

/// Finds the first enabled provider with the id `id`.
pub fn find_provider(v: &[ProviderConfig], id: &[char]) -> (r: Option<usize>)
    ensures
        match r {
            Some(i) => provider_at(v@, id@, 0) == Some(i as int) && i < v@.len(),
            None => provider_at(v@, id@, 0) is None,
        },
{
    for i in 0..v.len()
        invariant
            provider_at(v@, id@, 0) == provider_at(v@, id@, i as int),
    {
        if v[i].enabled && same(chars_of(v[i].id.as_str()).as_slice(), id) {
            return Some(i);
        }
    }
    None
}

/// The first model at or after `i` with the id `id`.
pub open spec fn model_at(v: Seq<ModelConfig>, id: Seq<char>, i: int) -> Option<int>
    decreases v.len() - i,
{
    if i < 0 || i >= v.len() {
        None
    } else if v[i].id@ == id {
        Some(i)
    } else {
        model_at(v, id, i + 1)
    }
}

/// Finds the first model with the id `id`.
pub fn find_model(v: &[ModelConfig], id: &[char]) -> (r: Option<usize>)
    ensures
        match r {
            Some(i) => model_at(v@, id@, 0) == Some(i as int) && i < v@.len(),
            None => model_at(v@, id@, 0) is None,
        },
{
    for i in 0..v.len()
        invariant
            model_at(v@, id@, 0) == model_at(v@, id@, i as int),
    {
        if same(chars_of(v[i].id.as_str()).as_slice(), id) {
            return Some(i);
        }
    }
    None
}

/// The index of the first entry at or after `i` with the level `level`.
pub open spec fn level_at(v: Seq<(String, Json)>, level: Seq<char>, i: int) -> Option<int>
    decreases v.len() - i,
{
    if i < 0 || i >= v.len() {
        None
    } else if v[i].0@ == level {
        Some(i)
    } else {
        level_at(v, level, i + 1)
    }
}

/// The parameters of a reasoning level.
pub open spec fn level_params(v: Seq<(String, Json)>, level: Seq<char>) -> Option<JsonV> {
    match level_at(v, level, 0) {
        Some(i) => Some(v[i].1.says()),
        None => None,
    }
}

/// Looks up the parameters of a reasoning level.
pub fn find_level(v: &[(String, Json)], level: &str) -> (r: Option<Json>)
    ensures
        says_opt(r) == level_params(v@, level@),
{
    for i in 0..v.len()
        invariant
            level_at(v@, level@, 0) == level_at(v@, level@, i as int),
    {
        if str_eq(v[i].0.as_str(), level) {
            return Some(v[i].1.copy());
        }
    }
    None
}

/// The names `provider/model` of the models of one provider.
pub open spec fn model_names(p: ProviderConfig) -> Seq<Seq<char>> {
    p.models@.map_values(|m: ModelConfig| p.id@ + "/"@ + m.id@)
}

/// The names `provider/model` of the models of all enabled providers.
pub open spec fn all_model_names(v: Seq<ProviderConfig>) -> Seq<Seq<char>>
    decreases v.len(),
{
    if v.len() == 0 {
        Seq::empty()
    } else if v.last().enabled {
        all_model_names(v.drop_last()) + model_names(v.last())
    } else {
        all_model_names(v.drop_last())
    }
}

/// The models that a message offers.
pub open spec fn offered_models(v: Seq<ProviderConfig>) -> Seq<char> {
    let ids = all_model_names(v);
    if ids.len() == 0 {
        "（无已启用供应商）"@
    } else {
        join(ids, ", "@)
    }
}

/// Lists the models of the enabled providers for a message.
pub fn available_model_list(config: &AppConfig) -> (r: Vec<char>)
    ensures
        r@ == offered_models(config.providers@),
{
    let mut ids: Vec<Vec<char>> = Vec::new();
    let ghost v = config.providers@;
    proof {
        assert(rows(ids@) =~= all_model_names(v.take(0)));
    }
    for i in 0..config.providers.len()
        invariant
            v == config.providers@,
            rows(ids@) == all_model_names(v.take(i as int)),
    {
        let p = &config.providers[i];
        proof {
            assert(v.take(i as int + 1).drop_last() =~= v.take(i as int));
        }
        if p.enabled {
            let ghost before = rows(ids@);
            let ghost own = model_names(*p);
            proof {
                assert(rows(ids@) =~= before + own.take(0));
            }
            for k in 0..p.models.len()
                invariant
                    own == model_names(*p),
                    rows(ids@) == before + own.take(k as int),
            {
                let ghost now = rows(ids@);
                let mut id = chars_of(p.id.as_str());
                push_text(&mut id, "/");
                push_text(&mut id, p.models[k].id.as_str());
                ids.push(id);
                proof {
                    assert(rows(ids@) =~= now.push(own[k as int]));
                    assert(own.take(k as int + 1) =~= own.take(k as int).push(own[k as int]));
                    assert(rows(ids@) =~= before + own.take(k as int + 1));
                }
            }
            proof {
                assert(own.take(p.models@.len() as int) =~= own);
            }
        }
    }
    proof {
        assert(v.take(v.len() as int) =~= v);
        assert(rows(ids@).len() == ids@.len());
    }
    if ids.len() == 0 {
        chars_of("（无已启用供应商）")
    } else {
        joined(ids.as_slice(), ", ")
    }
}

/// The reasoning levels that a message offers, in order.
pub open spec fn offered_levels(v: Seq<(String, Json)>) -> Seq<char> {
    let levels = sorted(v.map_values(|e: (String, Json)| e.0@));
    if levels.len() == 0 {
        "（无）"@
    } else {
        join(levels, ", "@)
    }
}

/// Lists the reasoning levels of a model for a message.
pub fn available_levels(v: &[(String, Json)]) -> (r: Vec<char>)
    ensures
        r@ == offered_levels(v@),
{
    let ghost want = v@.map_values(|e: (String, Json)| e.0@);
    let mut levels: Vec<Vec<char>> = Vec::new();
    for i in 0..v.len()
        invariant
            want == v@.map_values(|e: (String, Json)| e.0@),
            rows(levels@) == want.take(i as int),
    {
        let ghost before = rows(levels@);
        levels.push(chars_of(v[i].0.as_str()));
        proof {
            assert(rows(levels@) =~= before.push(want[i as int]));
            assert(want.take(i as int + 1) =~= want.take(i as int).push(want[i as int]));
        }
    }
    proof {
        assert(want.take(v@.len() as int) =~= want);
        crate::order::lemma_sorted(want);
    }
    let s = sort_texts(levels.as_slice());
    proof {
        assert(rows(s@).len() == s@.len());
    }
    if s.len() == 0 {
        chars_of("（无）")
    } else {
        joined(s.as_slice(), ", ")
    }
}

/// The endpoint of model `m` of provider `p` with the given request
/// parameters.
pub open spec fn endpoint(p: ProviderConfig, m: ModelConfig, params: Option<JsonV>) -> crate::provider::ResolvedV {
    crate::provider::ResolvedV {
        base_url: p.base_url@,
        api_key: p.api_key@,
        model: m.id@,
        context_window: m.context_window,
        max_output_tokens: m.max_output_tokens,
        api_format: p.api_format,
        reasoning_params: params,
        cap_web_search: m.cap_web_search,
        web_search_tool: says_opt(m.web_search_tool),
        input_image: m.input_image,
        provider_name: p.name@,
    }
}

/// Makes the endpoint of a model.
pub fn make_endpoint(p: &ProviderConfig, m: &ModelConfig, params: Option<Json>) -> (r:
    ResolvedModel)
    ensures
        r@ == endpoint(*p, *m, says_opt(params)),
{
    ResolvedModel {
        base_url: p.base_url.clone(),
        api_key: p.api_key.clone(),
        model: m.id.clone(),
        context_window: m.context_window,
        max_output_tokens: m.max_output_tokens,
        api_format: p.api_format,
        reasoning_params: params,
        cap_web_search: m.cap_web_search,
        web_search_tool: crate::json::copied_json(&m.web_search_tool),
        input_image: m.input_image,
        provider_name: p.name.clone(),
    }
}

/// The provider and the model that a profile's `model` names: the two sides of
/// its first slash, or the default provider and the whole text.
pub open spec fn model_spec(config: AppConfig, spec: Seq<char>) -> (Seq<char>, Seq<char>) {
    match split_once(spec, '/') {
        Some((p, m)) => (p, m),
        None => (config.default_provider@, spec),
    }
}

/// The endpoint of a subagent: the parent's where its profile names no model,
/// else exactly the one that it names; the message says what is missing.
pub open spec fn subagent_endpoint(
    config: AppConfig,
    parent: crate::provider::ResolvedV,
    profile: ProfileV,
) -> Result<crate::provider::ResolvedV, Seq<char>> {
    match profile.model {
        None => Ok(parent),
        Some(spec) => {
            let (pid, mid) = model_spec(config, spec);
            match provider_at(config.providers@, pid, 0) {
                None => Err(
                    if split_once(spec, '/') is Some {
                        "子代理 "@ + profile.name + " 指定的供应商 \""@ + pid
                            + "\" 不存在或未启用。可用模型: "@ + offered_models(config.providers@)
                    } else {
                        "默认供应商 \""@ + pid + "\" 不存在或未启用。可用模型: "@ + offered_models(
                            config.providers@,
                        )
                    },
                ),
                Some(i) => {
                    let p = config.providers@[i];
                    match model_at(p.models@, mid, 0) {
                        None => Err(
                            "供应商 "@ + p.id@ + " 下没有模型 \""@ + mid + "\"（子代理 "@
                                + profile.name + "）。可用模型: "@ + offered_models(
                                config.providers@,
                            ),
                        ),
                        Some(k) => {
                            let m = p.models@[k];
                            match profile.thought_level {
                                None => Ok(endpoint(p, m, None)),
                                Some(level) => match level_params(m.reasoning_params@, level) {
                                    Some(params) => Ok(endpoint(p, m, Some(params))),
                                    None => Err(
                                        "模型 \""@ + m.id@ + "\" 没有推理档位 \""@ + level
                                            + "\"，可用档位: "@ + offered_levels(
                                            m.reasoning_params@,
                                        ),
                                    ),
                                },
                            }
                        },
                    }
                },
            }
        },
    }
}

/// Finds the endpoint of a subagent, with the key of its provider as it is
/// configured. A profile that names what is not there is an error: nothing else
/// is taken in its place.
pub fn choose_subagent_model(
    config: &AppConfig,
    parent: &ResolvedModel,
    profile: &AgentProfile,
) -> (r: Result<ResolvedModel, String>)
    ensures
        match r {
            Ok(m) => subagent_endpoint(*config, parent@, profile@) == Ok::<
                crate::provider::ResolvedV,
                Seq<char>,
            >(m@),
            Err(e) => subagent_endpoint(*config, parent@, profile@) == Err::<
                crate::provider::ResolvedV,
                Seq<char>,
            >(e@),
        },
{
    let spec = match &profile.model {
        None => return Ok(parent.copy()),
        Some(s) => chars_of(s.as_str()),
    };
    let default_provider = chars_of(config.default_provider.as_str());
    let (pid, mid, named): (&[char], &[char], bool) = match cut(spec.as_slice(), '/') {
        Some((p, m)) => (p, m, true),
        None => (default_provider.as_slice(), spec.as_slice(), false),
    };
    let p = match find_provider(config.providers.as_slice(), pid) {
        Some(i) => &config.providers[i],
        None => {
            let offer = available_model_list(config);
            let mut e: Vec<char> = Vec::new();
            if named {
                push_text(&mut e, "子代理 ");
                push_text(&mut e, profile.name.as_str());
                push_text(&mut e, " 指定的供应商 \"");
                push_all(&mut e, pid);
                push_text(&mut e, "\" 不存在或未启用。可用模型: ");
                push_all(&mut e, offer.as_slice());
                proof {
                    assert(Seq::<char>::empty() + "子代理 "@ =~= "子代理 "@);
                }
            } else {
                push_text(&mut e, "默认供应商 \"");
                push_all(&mut e, pid);
                push_text(&mut e, "\" 不存在或未启用。可用模型: ");
                push_all(&mut e, offer.as_slice());
                proof {
                    assert(Seq::<char>::empty() + "默认供应商 \""@ =~= "默认供应商 \""@);
                }
            }
            return Err(string_of(e.as_slice()));
        },
    };
    let m = match find_model(p.models.as_slice(), mid) {
        Some(k) => &p.models[k],
        None => {
            let offer = available_model_list(config);
            let mut e = chars_of("供应商 ");
            push_text(&mut e, p.id.as_str());
            push_text(&mut e, " 下没有模型 \"");
            push_all(&mut e, mid);
            push_text(&mut e, "\"（子代理 ");
            push_text(&mut e, profile.name.as_str());
            push_text(&mut e, "）。可用模型: ");
            push_all(&mut e, offer.as_slice());
            return Err(string_of(e.as_slice()));
        },
    };
    match &profile.thought_level {
        None => Ok(make_endpoint(p, m, None)),
        Some(level) => {
            match find_level(m.reasoning_params.as_slice(), level.as_str()) {
                Some(params) => Ok(make_endpoint(p, m, Some(params))),
                None => {
                    let offer = available_levels(m.reasoning_params.as_slice());
                    let mut e = chars_of("模型 \"");
                    push_text(&mut e, m.id.as_str());
                    push_text(&mut e, "\" 没有推理档位 \"");
                    push_text(&mut e, level.as_str());
                    push_text(&mut e, "\"，可用档位: ");
                    push_all(&mut e, offer.as_slice());
                    Err(string_of(e.as_slice()))
                },
            }
        },
    }
}

/// Whether `r` is the endpoint `m` with the key that is sent: all references to
/// environment variables in it are replaced.
pub open spec fn is_keyed(
    m: crate::provider::ResolvedV,
    env: Seq<(Seq<char>, Seq<char>)>,
    r: crate::provider::ResolvedV,
) -> bool {
    &&& is_expansion(m.api_key, env, r.api_key)
    &&& r == (crate::provider::ResolvedV { api_key: r.api_key, ..m })
}

/// Puts the environment variables that the key of an endpoint refers to in
/// their places.
pub fn put_key(m: ResolvedModel, env: &[(String, String)]) -> (r: ResolvedModel)
    requires
        expansion_ends(m@.api_key, vars_say(env@)),
    ensures
        is_keyed(m@, vars_say(env@), r@),
{
    let mut r = m;
    r.api_key = expand_env(r.api_key.as_str(), env);
    r
}

/// Finds the endpoint of a subagent. A profile that names what is not there is
/// an error: nothing else is taken in its place. An endpoint of its own has the
/// key that is sent; the parent's is taken as it is.
pub fn resolve_subagent_model(
    config: &AppConfig,
    parent: &ResolvedModel,
    profile: &AgentProfile,
    env: &[(String, String)],
) -> (r: Result<ResolvedModel, String>)
    requires
        profile@.model is Some ==> (subagent_endpoint(*config, parent@, profile@) matches Ok(m)
            ==> expansion_ends(m.api_key, vars_say(env@))),
    ensures
        match subagent_endpoint(*config, parent@, profile@) {
            Ok(m) => r is Ok && if profile@.model is Some {
                is_keyed(m, vars_say(env@), r->Ok_0@)
            } else {
                r->Ok_0@ == m
            },
            Err(e) => r is Err && r->Err_0@ == e,
        },
{
    match choose_subagent_model(config, parent, profile) {
        Ok(m) => if profile.model.is_some() {
            Ok(put_key(m, env))
        } else {
            Ok(m)
        },
        Err(e) => Err(e),
    }
}

// ---------------------------------------------------------------------------
// Laws
// ---------------------------------------------------------------------------

/// No subagent ever has a forbidden tool, every tool that it has is one of
/// those offered, and with an explicit list it has none outside that list.
pub proof fn law_child_tools(tools: Option<Seq<Seq<char>>>, all: Seq<Seq<char>>, input_image: bool)
    ensures
        ({
            let set = all.filter(|n: Seq<char>| child_may(tools, input_image, n));
            forall|i: int|
                0 <= i < set.len() ==> !is_forbidden_child_tool(#[trigger] set[i]) && all.contains(
                    set[i],
                ) && (!all_tools(tools) ==> tools->0.contains(set[i])) && (!input_image ==> set[i]
                    != "ReadMediaFile"@)
        }),
{
    let may = |n: Seq<char>| child_may(tools, input_image, n);
    let set = all.filter(may);
    assert forall|i: int| 0 <= i < set.len() implies !is_forbidden_child_tool(#[trigger] set[i])
        && all.contains(set[i]) && (!all_tools(tools) ==> tools->0.contains(set[i])) && (
    !input_image ==> set[i] != "ReadMediaFile"@) by {
        all.lemma_filter_pred(may, i);
        all.lemma_filter_contains_rev(may, set[i]);
    }
}

/// A profile is found under its own name, whatever other names reduce to.
pub proof fn law_exact_name_wins(v: Seq<Seq<char>>, i: int)
    requires
        0 <= i < v.len(),
        forall|k: int| 0 <= k < i ==> v[k] != v[i],
    ensures
        profile_meant(v, v[i]) == Ok::<int, Seq<char>>(i),
{
    lemma_first_index(v, v[i], 0, i);
}

proof fn lemma_first_index(v: Seq<Seq<char>>, x: Seq<char>, from: int, i: int)
    requires
        0 <= from <= i < v.len(),
        v[i] == x,
        forall|k: int| from <= k < i ==> v[k] != x,
    ensures
        first_index(v, x, from) == Some(i),
    decreases i - from,
{
    if from < i {
        lemma_first_index(v, x, from + 1, i);
    }
}

/// A project's profile file replaces every other definition of its name, and
/// only that one.
pub proof fn law_project_file_wins(
    user: Seq<Seq<char>>,
    project: Seq<Seq<char>>,
    file: Seq<char>,
    state: Map<Seq<char>, (Option<Seq<char>>, Option<Seq<char>>)>,
)
    requires
        parse_profile(file) is Ok,
    ensures
        ({
            let p = parse_profile(file)->Ok_0;
            let before = catalog(user, project, state);
            let after = catalog(user, project.push(file), state);
            &&& after.dom() == before.dom().insert(p.name)
            &&& after[p.name] == with_choice(ProfileV { source: AgentSource::Project, ..p }, state)
            &&& forall|n: Seq<char>|
                n != p.name && before.dom().contains(n) ==> #[trigger] after[n] == before[n]
        }),
{
    let p = parse_profile(file)->Ok_0;
    assert(project.push(file).drop_last() =~= project);
    let before = catalog(user, project, state);
    let after = catalog(user, project.push(file), state);
    assert(after.dom() =~= before.dom().insert(p.name));
}

/// A choice made at run time is what a later look finds, and forgetting it
/// leaves the other choices as they were.
pub proof fn law_override_read_back(
    m: Map<Seq<char>, (Option<Seq<char>>, Option<Seq<char>>)>,
    name: Seq<char>,
    model: Option<Seq<char>>,
    level: Option<Seq<char>>,
)
    ensures
        ({
            let set = with_override(m, name, model, level);
            let cleared = with_override(set, name, None, None);
            &&& meant(model) is Some ==> set.dom().contains(name) && set[name] == (
                meant(model),
                meant(level),
            )
            &&& !cleared.dom().contains(name)
            &&& cleared == m.remove(name)
        }),
{
    let set = with_override(m, name, model, level);
    let cleared = with_override(set, name, None, None);
    assert(cleared =~= m.remove(name));
}

/// A field of a profile's front matter sets what it names and nothing else; a
/// field that is not known sets nothing.
pub proof fn law_field_sets_its_own(
    f: FieldsV,
    key: Seq<char>,
    scalar: Seq<char>,
    list: Option<Seq<Seq<char>>>,
    n: nat,
)
    requires
        scalar.len() > 0,
    ensures
        key == "name"@ ==> set_field(f, key, scalar, list) == Ok::<FieldsV, Seq<char>>(
            FieldsV { name: Some(scalar), ..f },
        ),
        key == "description"@ ==> set_field(f, key, scalar, list) == Ok::<FieldsV, Seq<char>>(
            FieldsV { description: Some(scalar), ..f },
        ),
        key == "tools"@ && list is Some ==> set_field(f, key, scalar, list) == Ok::<
            FieldsV,
            Seq<char>,
        >(FieldsV { tools: list, ..f }),
        key == "tools"@ && list is None ==> set_field(f, key, scalar, list) == Ok::<
            FieldsV,
            Seq<char>,
        >(FieldsV { tools: Some(seq![scalar]), ..f }),
        key == "model"@ && trim(scalar) == scalar && scalar != "inherit"@ && scalar != "main"@
            ==> set_field(f, key, scalar, list) == Ok::<FieldsV, Seq<char>>(
            FieldsV { model: Some(scalar), ..f },
        ),
        (key == "thoughtLevel"@ || key == "thought_level"@) ==> set_field(f, key, scalar, list)
            == Ok::<FieldsV, Seq<char>>(FieldsV { thought_level: Some(scalar), ..f }),
        (key == "maxTurns"@ || key == "max_turns"@) && parse_number(scalar, usize::MAX as nat)
            == Some(n) && 0 < n <= usize::MAX ==> set_field(f, key, scalar, list) == Ok::<
            FieldsV,
            Seq<char>,
        >(FieldsV { max_turns: Some(n as usize), ..f }),
        (key == "maxTurns"@ || key == "max_turns"@) && (parse_number(scalar, usize::MAX as nat)
            == Some(0nat) || parse_number(scalar, usize::MAX as nat) is None) ==> set_field(
            f,
            key,
            scalar,
            list,
        ) is Err,
        (key == "injectAgentsMd"@ || key == "inject_agents_md"@) && scalar == "false"@
            ==> set_field(f, key, scalar, list) == Ok::<FieldsV, Seq<char>>(
            FieldsV { inject_agents_md: false, ..f },
        ),
        (key == "injectAgentsMd"@ || key == "inject_agents_md"@) && scalar == "true"@
            ==> set_field(f, key, scalar, list) == Ok::<FieldsV, Seq<char>>(
            FieldsV { inject_agents_md: true, ..f },
        ),
{
    reveal_strlit("name");
    reveal_strlit("description");
    reveal_strlit("tools");
    reveal_strlit("model");
    reveal_strlit("thoughtLevel");
    reveal_strlit("thought_level");
    reveal_strlit("maxTurns");
    reveal_strlit("max_turns");
    reveal_strlit("injectAgentsMd");
    reveal_strlit("inject_agents_md");
    reveal_strlit("true");
    reveal_strlit("false");
    assert("name"@.len() == 4 && "description"@.len() == 11 && "tools"@.len() == 5
        && "model"@.len() == 5 && "thoughtLevel"@.len() == 12 && "thought_level"@.len() == 13
        && "maxTurns"@.len() == 8 && "max_turns"@.len() == 9 && "injectAgentsMd"@.len() == 14
        && "inject_agents_md"@.len() == 16);
    assert("tools"@[0] == 't' && "model"@[0] == 'm');
    assert("true"@.len() == 4 && "false"@.len() == 5);
}

/// A profile has the fields that its file gives, each in its own place, and the
/// text behind them as its prompt.
pub proof fn law_profile_keeps_its_fields(f: FieldsV, body: Seq<char>)
    requires
        finish_profile(f, body) is Ok,
    ensures
        ({
            let p = finish_profile(f, body)->Ok_0;
            &&& f.name == Some(p.name) && f.description == Some(p.description)
            &&& p.tools == f.tools && p.model == f.model && p.thought_level == f.thought_level
            &&& p.max_turns == f.max_turns && p.inject_agents_md == f.inject_agents_md
            &&& p.system_prompt == body && body.len() > 0
            &&& 3 <= p.name.len() <= 50
            &&& forall|i: int|
                0 <= i < p.name.len() ==> ('a' <= (#[trigger] p.name[i]) <= 'z' || 'A' <= p.name[i]
                    <= 'Z' || '0' <= p.name[i] <= '9' || p.name[i] == '-')
        }),
{
}

/// The items of a list are all its texts that are not empty, in their order.
pub proof fn law_items_are_all_read(v: Seq<Seq<char>>)
    ensures
        non_empty(v) == v.filter(|t: Seq<char>| t.len() > 0),
    decreases v.len(),
{
    reveal(Seq::filter);
    if v.len() > 0 {
        law_items_are_all_read(v.drop_last());
    }
}

proof fn lemma_provider_at(v: Seq<ProviderConfig>, id: Seq<char>, from: int, i: int)
    requires
        0 <= from <= i < v.len(),
        v[i].enabled && v[i].id@ == id,
        forall|j: int| from <= j < i ==> !((#[trigger] v[j]).enabled && v[j].id@ == id),
    ensures
        provider_at(v, id, from) == Some(i),
    decreases i - from,
{
    if from < i {
        assert(!(v[from].enabled && v[from].id@ == id));
        lemma_provider_at(v, id, from + 1, i);
    }
}

proof fn lemma_model_at(v: Seq<ModelConfig>, id: Seq<char>, from: int, k: int)
    requires
        0 <= from <= k < v.len(),
        v[k].id@ == id,
        forall|j: int| from <= j < k ==> (#[trigger] v[j]).id@ != id,
    ensures
        model_at(v, id, from) == Some(k),
    decreases k - from,
{
    if from < k {
        assert(v[from].id@ != id);
        lemma_model_at(v, id, from + 1, k);
    }
}

/// The first enabled provider of an id and its first model of an id are found.
pub proof fn law_model_is_found(v: Seq<ProviderConfig>, pid: Seq<char>, mid: Seq<char>, i: int, k: int)
    requires
        0 <= i < v.len(),
        v[i].enabled && v[i].id@ == pid,
        forall|j: int| 0 <= j < i ==> !((#[trigger] v[j]).enabled && v[j].id@ == pid),
        0 <= k < v[i].models@.len(),
        v[i].models@[k].id@ == mid,
        forall|j: int| 0 <= j < k ==> (#[trigger] v[i].models@[j]).id@ != mid,
    ensures
        provider_at(v, pid, 0) == Some(i),
        model_at(v[i].models@, mid, 0) == Some(k),
{
    lemma_provider_at(v, pid, 0, i);
    lemma_model_at(v[i].models@, mid, 0, k);
}

/// A subagent whose profile names no model has its parent's endpoint; one whose
/// profile names a provider and a model has the endpoint of these: their
/// address, key, format and limits, and the parameters of its level.
pub proof fn law_subagent_has_the_model_it_names(
    config: AppConfig,
    parent: crate::provider::ResolvedV,
    profile: ProfileV,
    pid: Seq<char>,
    mid: Seq<char>,
    i: int,
    k: int,
)
    ensures
        profile.model is None ==> subagent_endpoint(config, parent, profile) == Ok::<
            crate::provider::ResolvedV,
            Seq<char>,
        >(parent),
        profile.model == Some(pid + seq!['/'] + mid) && !pid.contains('/') && provider_at(
            config.providers@,
            pid,
            0,
        ) == Some(i) && model_at(config.providers@[i].models@, mid, 0) == Some(k)
            && profile.thought_level is None ==> ({
            let p = config.providers@[i];
            let m = p.models@[k];
            subagent_endpoint(config, parent, profile) matches Ok(e) && e.base_url == p.base_url@
                && e.api_key == p.api_key@ && e.model == m.id@ && e.context_window
                == m.context_window && e.max_output_tokens == m.max_output_tokens && e.api_format
                == p.api_format && e.cap_web_search == m.cap_web_search && e.input_image
                == m.input_image && e.provider_name == p.name@ && e.reasoning_params is None
        }),
{
    let spec = pid + seq!['/'] + mid;
    if !pid.contains('/') {
        crate::chars::lemma_find_from(spec, '/', 0);
        let n = pid.len() as int;
        assert(spec[n] == '/');
        assert forall|j: int| 0 <= j < n implies spec[j] != '/' by {
            assert(spec[j] == pid[j]);
            assert(pid.contains(pid[j]));
        }
        assert(crate::chars::find(spec, '/') == Some(n));
        assert(spec.take(n) =~= pid);
        assert(spec.skip(n + 1) =~= mid);
    }
}

/// The front matter of a profile is read line by line: a line with a name and a
/// value sets that field and the next line follows; empty lines and comments
/// are passed over; the closing line ends it.
pub proof fn law_front_matter_is_read_by_lines(
    lines: Seq<Seq<char>>,
    i: int,
    f: FieldsV,
    key: Seq<char>,
    value: Seq<char>,
)
    requires
        0 <= i < lines.len(),
    ensures
        trim(lines[i]) == "---"@ ==> read_fields(lines, i, f) == Ok::<
            (FieldsV, Option<int>),
            Seq<char>,
        >((f, Some(i + 1))),
        trim(lines[i]).len() == 0 || trim(lines[i])[0] == '#' ==> read_fields(lines, i, f)
            == read_fields(lines, i + 1, f),
        trim(lines[i]) == key + seq![':'] + value && key.len() > 0 && key[0] != '#' && trim(
            lines[i],
        ) != "---"@ && !key.contains(':') && trim(value).len() > 0 && trim(value)[0] != '[' ==> (
        match set_field(f, trim(key), unquote(trim(value)), None) {
            Ok(g) => read_fields(lines, i, f) == read_fields(lines, i + 1, g),
            Err(e) => read_fields(lines, i, f) == Err::<(FieldsV, Option<int>), Seq<char>>(e),
        }),
{
    reveal_strlit("---");
    assert("---"@.len() == 3 && "---"@[0] == '-');
    let t = trim(lines[i]);
    if t == key + seq![':'] + value && !key.contains(':') {
        let n = key.len() as int;
        crate::chars::lemma_find_from(t, ':', 0);
        assert(t[n] == ':');
        assert forall|j: int| 0 <= j < n implies t[j] != ':' by {
            assert(t[j] == key[j]);
            assert(key.contains(key[j]));
        }
        assert(crate::chars::find(t, ':') == Some(n));
        assert(t.take(n) =~= key);
        assert(t.skip(n + 1) =~= value);
        if key.len() > 0 {
            assert(t[0] == key[0]);
        }
    }
}

/// A profile's file begins with the opening line; what its front matter says
/// and the text behind it, trimmed, make the profile.
pub proof fn law_profile_is_front_matter_and_text(content: Seq<char>, f: FieldsV, i: int)
    requires
        content.len() > 0,
        content[0] != '\u{feff}',
        lines(content).len() > 0,
    ensures
        trim(lines(content)[0]) != "---"@ ==> parse_profile(content) is Err,
        trim(lines(content)[0]) == "---"@ && read_fields(lines(content), 1, no_fields()) == Ok::<
            (FieldsV, Option<int>),
            Seq<char>,
        >((f, Some(i))) ==> parse_profile(content) == finish_profile(
            f,
            trim(join(lines(content).skip(i), "\n"@)),
        ),
        trim(lines(content)[0]) == "---"@ && read_fields(lines(content), 1, no_fields()) == Ok::<
            (FieldsV, Option<int>),
            Seq<char>,
        >((f, None)) ==> parse_profile(content) is Err,
{
}

} // verus!
