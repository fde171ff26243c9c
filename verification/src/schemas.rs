//! The descriptions of the tools that the model sees.

use crate::agent::{agent_description_list, profile_line, profiles_say, AgentProfile, ProfileV};
use crate::chars::{cat, join};
use crate::json::{
    at, jarr, jnum, jobj, jstr, ms, no_members, num_says, put, put_item, says_all, says_members,
    text_at, Json, JsonV,
};
use crate::provider::no_items;
use crate::tool::{all, all_built_in, Tool};
use vstd::prelude::*;

verus! {

/// The description of a parameter of a kind.
pub open spec fn field_tree(kind: Seq<char>, description: Seq<char>) -> JsonV {
    JsonV::Obj(
        ms().push(("description"@, JsonV::Str(description))).push(("type"@, JsonV::Str(kind))),
    )
}

fn field_json(kind: &str, description: &str) -> (r: Json)
    ensures
        r.says() == field_tree(kind@, description@),
{
    let mut m = no_members();
    put(&mut m, "description", jstr(description));
    put(&mut m, "type", jstr(kind));
    jobj(m)
}

/// The description of a whole number.
pub open spec fn integer_tree() -> JsonV {
    JsonV::Obj(ms().push(("type"@, JsonV::Str("integer"@))))
}

fn integer_json() -> (r: Json)
    ensures
        r.says() == integer_tree(),
{
    let mut m = no_members();
    put(&mut m, "type", jstr("integer"));
    jobj(m)
}

/// The description of an object that has properties, and the names of those
/// that must be there, if there are any.
pub open spec fn object_tree(properties: Seq<(Seq<char>, JsonV)>, required: Seq<JsonV>) -> JsonV {
    let some = ms().push(("properties"@, JsonV::Obj(properties)));
    let more = if required.len() > 0 {
        some.push(("required"@, JsonV::Arr(required)))
    } else {
        some
    };
    JsonV::Obj(more.push(("type"@, JsonV::Str("object"@))))
}

fn object_json(properties: Vec<(String, Json)>, required: Vec<Json>) -> (r: Json)
    ensures
        r.says() == object_tree(says_members(properties@), says_all(required@)),
{
    let mut m = no_members();
    put(&mut m, "properties", jobj(properties));
    proof {
        assert(says_all(required@).len() == required@.len());
    }
    if required.len() > 0 {
        put(&mut m, "required", jarr(required));
    }
    put(&mut m, "type", jstr("object"));
    jobj(m)
}

/// The description of a tool.
pub open spec fn tool_tree(name: Seq<char>, description: Seq<char>, parameters: JsonV) -> JsonV {
    let function = JsonV::Obj(
        ms().push(("description"@, JsonV::Str(description))).push(("name"@, JsonV::Str(name))).push(
            ("parameters"@, parameters),
        ),
    );
    JsonV::Obj(ms().push(("function"@, function)).push(("type"@, JsonV::Str("function"@))))
}

fn tool_json(name: &str, description: &str, parameters: Json) -> (r: Json)
    ensures
        r.says() == tool_tree(name@, description@, parameters.says()),
{
    let mut f = no_members();
    put(&mut f, "description", jstr(description));
    put(&mut f, "name", jstr(name));
    put(&mut f, "parameters", parameters);
    let mut m = no_members();
    put(&mut m, "function", jobj(f));
    put(&mut m, "type", jstr("function"));
    jobj(m)
}

/// What `Read` is for.
pub const READ_DESCRIPTION: &'static str = "读取工作区内文件内容，输出带「行号\\t」前缀。path 相对工作目录；文件过长时用 offset/limit 分页（单次约 10 万字符上限，单行超 2000 字符会截断）。UTF-16/GBK 文件自动转码显示，二进制文件会拒绝。";

/// The parameters of `Read`.
pub open spec fn read_tree() -> JsonV {
    object_tree(
        ms().push(
            ("limit"@, field_tree("integer"@, "最多读取行数，默认 2000"@)),
        ).push(
            ("offset"@, field_tree("integer"@, "起始行号（从 1 开始），默认 1"@)),
        ).push(
            ("path"@, field_tree("string"@, "相对工作目录的文件路径"@)),
        ),
        Seq::<JsonV>::empty().push(JsonV::Str("path"@)),
    )
}

fn read_json() -> (r: Json)
    ensures
        r.says() == read_tree(),
{
    let mut properties = no_members();
    put(&mut properties, "limit", field_json("integer", "最多读取行数，默认 2000"));
    put(&mut properties, "offset", field_json("integer", "起始行号（从 1 开始），默认 1"));
    put(&mut properties, "path", field_json("string", "相对工作目录的文件路径"));
    let mut required = no_items();
    put_item(&mut required, jstr("path"));
    object_json(properties, required)
}

/// What `Write` is for.
pub const WRITE_DESCRIPTION: &'static str = "写入整个文件（自动创建父目录）。大文件优先用 Edit 做局部修改。";

/// The parameters of `Write`.
pub open spec fn write_tree() -> JsonV {
    object_tree(
        ms().push(
            ("content"@, field_tree("string"@, "完整文件内容"@)),
        ).push(
            ("path"@, field_tree("string"@, "相对工作目录的文件路径"@)),
        ),
        Seq::<JsonV>::empty().push(JsonV::Str("path"@)).push(JsonV::Str("content"@)),
    )
}

fn write_json() -> (r: Json)
    ensures
        r.says() == write_tree(),
{
    let mut properties = no_members();
    put(&mut properties, "content", field_json("string", "完整文件内容"));
    put(&mut properties, "path", field_json("string", "相对工作目录的文件路径"));
    let mut required = no_items();
    put_item(&mut required, jstr("path"));
    put_item(&mut required, jstr("content"));
    object_json(properties, required)
}

/// What `Edit` is for.
pub const EDIT_DESCRIPTION: &'static str = "精确替换文件中的文本。old_string 必须在文件中唯一出现（replace_all=true 时替换全部出现）；先 Read 确认内容再改。保留原文件的编码与行尾。";

/// The parameters of `Edit`.
pub open spec fn edit_tree() -> JsonV {
    object_tree(
        ms().push(
            ("new_string"@, field_tree("string"@, "替换后的新文本；为空且 old_string 占整行时连行尾换行一起删除，不留空行"@)),
        ).push(
            ("old_string"@, field_tree("string"@, "要被替换的原文（须唯一出现；replace_all=true 时替换全部）"@)),
        ).push(
            ("path"@, field_tree("string"@, "相对工作目录的文件路径"@)),
        ).push(
            ("replace_all"@, field_tree("boolean"@, "true 时替换全部匹配（默认 false，要求唯一出现）"@)),
        ),
        Seq::<JsonV>::empty().push(JsonV::Str("path"@)).push(JsonV::Str("old_string"@)).push(JsonV::Str("new_string"@)),
    )
}

fn edit_json() -> (r: Json)
    ensures
        r.says() == edit_tree(),
{
    let mut properties = no_members();
    put(&mut properties, "new_string", field_json("string", "替换后的新文本；为空且 old_string 占整行时连行尾换行一起删除，不留空行"));
    put(&mut properties, "old_string", field_json("string", "要被替换的原文（须唯一出现；replace_all=true 时替换全部）"));
    put(&mut properties, "path", field_json("string", "相对工作目录的文件路径"));
    put(&mut properties, "replace_all", field_json("boolean", "true 时替换全部匹配（默认 false，要求唯一出现）"));
    let mut required = no_items();
    put_item(&mut required, jstr("path"));
    put_item(&mut required, jstr("old_string"));
    put_item(&mut required, jstr("new_string"));
    object_json(properties, required)
}

/// What `Glob` is for.
pub const GLOB_DESCRIPTION: &'static str = "按文件名模式匹配工作区文件（如 **/*.rs）。尊重 .gitignore/.ignore，包含隐藏文件，按最近修改排序；敏感文件（.env/私钥等）自动过滤。";

/// The parameters of `Glob`.
pub open spec fn glob_tree() -> JsonV {
    object_tree(
        ms().push(
            ("path"@, field_tree("string"@, "搜索根目录（相对工作目录），默认为工作目录"@)),
        ).push(
            ("pattern"@, field_tree("string"@, "glob 模式；含 / 时按相对路径匹配，不含 / 时只匹配文件名"@)),
        ),
        Seq::<JsonV>::empty().push(JsonV::Str("pattern"@)),
    )
}

fn glob_json() -> (r: Json)
    ensures
        r.says() == glob_tree(),
{
    let mut properties = no_members();
    put(&mut properties, "path", field_json("string", "搜索根目录（相对工作目录），默认为工作目录"));
    put(&mut properties, "pattern", field_json("string", "glob 模式；含 / 时按相对路径匹配，不含 / 时只匹配文件名"));
    let mut required = no_items();
    put_item(&mut required, jstr("pattern"));
    object_json(properties, required)
}

/// What `Grep` is for.
pub const GREP_DESCRIPTION: &'static str = "用正则搜索工作区文件内容，输出 文件:行号: 内容。尊重 .gitignore/.ignore，包含隐藏文件，跳过敏感文件（.env/私钥等），文件按最近修改优先搜索。";

/// The parameters of `Grep`.
pub open spec fn grep_tree() -> JsonV {
    object_tree(
        ms().push(
            ("ignore_case"@, field_tree("boolean"@, "true 时忽略大小写（默认 false）"@)),
        ).push(
            ("include"@, field_tree("string"@, "文件名过滤 glob（如 *.rs）"@)),
        ).push(
            ("path"@, field_tree("string"@, "搜索目录或单文件（相对工作目录），默认工作目录"@)),
        ).push(
            ("pattern"@, field_tree("string"@, "正则表达式"@)),
        ),
        Seq::<JsonV>::empty().push(JsonV::Str("pattern"@)),
    )
}

fn grep_json() -> (r: Json)
    ensures
        r.says() == grep_tree(),
{
    let mut properties = no_members();
    put(&mut properties, "ignore_case", field_json("boolean", "true 时忽略大小写（默认 false）"));
    put(&mut properties, "include", field_json("string", "文件名过滤 glob（如 *.rs）"));
    put(&mut properties, "path", field_json("string", "搜索目录或单文件（相对工作目录），默认工作目录"));
    put(&mut properties, "pattern", field_json("string", "正则表达式"));
    let mut required = no_items();
    put_item(&mut required, jstr("pattern"));
    object_json(properties, required)
}

/// What `Bash` is for.
pub const BASH_DESCRIPTION: &'static str = "执行 shell 命令并返回 stdout/stderr 与退出码。工作目录为工作区根。高风险命令会弹窗请用户确认。注入 NO_COLOR=1 / TERM=dumb / GIT_TERMINAL_PROMPT=0（git 不会交互提问挂死）。timeout 默认 60s 最大 300s，超时自动转后台任务继续跑（输出不丢）；输出超 30KB 时完整内容落盘 .pigcode/tool-results/ 并返回头尾预览。长时命令（dev server/watch/长构建）也可用 run_in_background 直接后台运行。";

/// The parameters of `Bash`.
pub open spec fn bash_tree() -> JsonV {
    object_tree(
        ms().push(
            ("command"@, field_tree("string"@, "要执行的命令"@)),
        ).push(
            ("run_in_background"@, field_tree("boolean"@, "true 时后台运行，立即返回 task_id（默认 false）"@)),
        ).push(
            ("timeout"@, field_tree("integer"@, "超时秒数，默认 60，最大 300；超时后命令自动转入后台继续运行，不丢输出"@)),
        ),
        Seq::<JsonV>::empty().push(JsonV::Str("command"@)),
    )
}

fn bash_json() -> (r: Json)
    ensures
        r.says() == bash_tree(),
{
    let mut properties = no_members();
    put(&mut properties, "command", field_json("string", "要执行的命令"));
    put(&mut properties, "run_in_background", field_json("boolean", "true 时后台运行，立即返回 task_id（默认 false）"));
    put(&mut properties, "timeout", field_json("integer", "超时秒数，默认 60，最大 300；超时后命令自动转入后台继续运行，不丢输出"));
    let mut required = no_items();
    put_item(&mut required, jstr("command"));
    object_json(properties, required)
}

/// What `TodoList` is for.
pub const TODO_LIST_DESCRIPTION: &'static str = "管理会话级待办清单。多步任务开始时拆分为清单写入，执行中随时更新进度；省略 todos 参数读取当前清单，提供则整体替换（非增量）。同一时间至多一项 in_progress。";

/// The parameters of `TodoList`.
pub open spec fn todo_list_tree() -> JsonV {
    object_tree(
        ms().push(
            ("todos"@, JsonV::Obj(
                ms().push(
                    ("description"@, JsonV::Str("完整的新待办清单（整体替换）"@)),
                ).push(
                    ("items"@, object_tree(
                        ms().push(
                            ("content"@, field_tree("string"@, "待办内容"@)),
                        ).push(
                            ("status"@, JsonV::Obj(
                                ms().push(
                                    ("enum"@, JsonV::Arr(Seq::<JsonV>::empty().push(JsonV::Str("pending"@)).push(JsonV::Str("in_progress"@)).push(JsonV::Str("done"@)))),
                                ).push(
                                    ("type"@, JsonV::Str("string"@)),
                                ),
                            )),
                        ),
                        Seq::<JsonV>::empty().push(JsonV::Str("content"@)).push(JsonV::Str("status"@)),
                    )),
                ).push(
                    ("type"@, JsonV::Str("array"@)),
                ),
            )),
        ),
        Seq::<JsonV>::empty(),
    )
}

fn todo_list_json() -> (r: Json)
    ensures
        r.says() == todo_list_tree(),
{
    let mut states = no_items();
    put_item(&mut states, jstr("pending"));
    put_item(&mut states, jstr("in_progress"));
    put_item(&mut states, jstr("done"));
    let mut status = no_members();
    put(&mut status, "enum", jarr(states));
    put(&mut status, "type", jstr("string"));
    let mut item = no_members();
    put(&mut item, "content", field_json("string", "待办内容"));
    put(&mut item, "status", jobj(status));
    let mut item_needs = no_items();
    put_item(&mut item_needs, jstr("content"));
    put_item(&mut item_needs, jstr("status"));
    let mut todos = no_members();
    put(&mut todos, "description", jstr("完整的新待办清单（整体替换）"));
    put(&mut todos, "items", object_json(item, item_needs));
    put(&mut todos, "type", jstr("array"));
    let mut properties = no_members();
    put(&mut properties, "todos", jobj(todos));
    let required = no_items();
    object_json(properties, required)
}

/// What `FetchURL` is for.
pub const FETCH_URL_DESCRIPTION: &'static str = "抓取公开网页并提取正文（HTML 自动清洗为纯文本，JSON/纯文本原样返回）。不支持需要登录的页面。URL 不允许内嵌凭据，域名会先做 DNS 私网校验。";

/// The parameters of `FetchURL`.
pub open spec fn fetch_url_tree() -> JsonV {
    object_tree(
        ms().push(
            ("url"@, field_tree("string"@, "要抓取的 http/https URL"@)),
        ),
        Seq::<JsonV>::empty().push(JsonV::Str("url"@)),
    )
}

fn fetch_url_json() -> (r: Json)
    ensures
        r.says() == fetch_url_tree(),
{
    let mut properties = no_members();
    put(&mut properties, "url", field_json("string", "要抓取的 http/https URL"));
    let mut required = no_items();
    put_item(&mut required, jstr("url"));
    object_json(properties, required)
}

/// What `TaskList` is for.
pub const TASK_LIST_DESCRIPTION: &'static str = "列出当前会话的后台 Bash 任务（id、状态、命令、耗时）。";

/// The parameters of `TaskList`.
pub open spec fn task_list_tree() -> JsonV {
    object_tree(
        ms(),
        Seq::<JsonV>::empty(),
    )
}

fn task_list_json() -> (r: Json)
    ensures
        r.says() == task_list_tree(),
{
    let properties = no_members();
    let required = no_items();
    object_json(properties, required)
}

/// What `TaskOutput` is for.
pub const TASK_OUTPUT_DESCRIPTION: &'static str = "查看后台 Bash 任务的输出（尾部节选）。";

/// The parameters of `TaskOutput`.
pub open spec fn task_output_tree() -> JsonV {
    object_tree(
        ms().push(
            ("task_id"@, field_tree("string"@, "后台任务 id（b1、b2…）"@)),
        ),
        Seq::<JsonV>::empty().push(JsonV::Str("task_id"@)),
    )
}

fn task_output_json() -> (r: Json)
    ensures
        r.says() == task_output_tree(),
{
    let mut properties = no_members();
    put(&mut properties, "task_id", field_json("string", "后台任务 id（b1、b2…）"));
    let mut required = no_items();
    put_item(&mut required, jstr("task_id"));
    object_json(properties, required)
}

/// What `TaskStop` is for.
pub const TASK_STOP_DESCRIPTION: &'static str = "停止（kill）一个仍在运行的后台 Bash 任务。";

/// The parameters of `TaskStop`.
pub open spec fn task_stop_tree() -> JsonV {
    object_tree(
        ms().push(
            ("task_id"@, field_tree("string"@, "后台任务 id（b1、b2…）"@)),
        ),
        Seq::<JsonV>::empty().push(JsonV::Str("task_id"@)),
    )
}

fn task_stop_json() -> (r: Json)
    ensures
        r.says() == task_stop_tree(),
{
    let mut properties = no_members();
    put(&mut properties, "task_id", field_json("string", "后台任务 id（b1、b2…）"));
    let mut required = no_items();
    put_item(&mut required, jstr("task_id"));
    object_json(properties, required)
}

/// What `AskUserQuestion` is for.
pub const ASK_USER_QUESTION_DESCRIPTION: &'static str = "需要用户决策时，给出 1-4 个结构化问题（每题 2-4 个选项）让用户选择，而不是用纯文本提问。每题可用 multi_select 允许多选；UI 会自动追加「其他」自由输入项。";

/// The parameters of `AskUserQuestion`.
pub open spec fn ask_user_question_tree() -> JsonV {
    object_tree(
        ms().push(
            ("questions"@, JsonV::Obj(
                ms().push(
                    ("description"@, JsonV::Str("1-4 个问题"@)),
                ).push(
                    ("items"@, object_tree(
                        ms().push(
                            ("header"@, field_tree("string"@, "可选短标签（≤12 字）"@)),
                        ).push(
                            ("multi_select"@, field_tree("boolean"@, "可选，true 允许多选（默认 false）"@)),
                        ).push(
                            ("options"@, JsonV::Obj(
                                ms().push(
                                    ("description"@, JsonV::Str("2-4 个选项"@)),
                                ).push(
                                    ("items"@, object_tree(
                                        ms().push(
                                            ("description"@, field_tree("string"@, "可选补充说明"@)),
                                        ).push(
                                            ("label"@, field_tree("string"@, "选项标签"@)),
                                        ),
                                        Seq::<JsonV>::empty().push(JsonV::Str("label"@)),
                                    )),
                                ).push(
                                    ("maxItems"@, num_says(4)),
                                ).push(
                                    ("minItems"@, num_says(2)),
                                ).push(
                                    ("type"@, JsonV::Str("array"@)),
                                ),
                            )),
                        ).push(
                            ("question"@, field_tree("string"@, "完整问题文本"@)),
                        ),
                        Seq::<JsonV>::empty().push(JsonV::Str("question"@)).push(JsonV::Str("options"@)),
                    )),
                ).push(
                    ("maxItems"@, num_says(4)),
                ).push(
                    ("minItems"@, num_says(1)),
                ).push(
                    ("type"@, JsonV::Str("array"@)),
                ),
            )),
        ),
        Seq::<JsonV>::empty().push(JsonV::Str("questions"@)),
    )
}

fn ask_user_question_json() -> (r: Json)
    ensures
        r.says() == ask_user_question_tree(),
{
    let mut option = no_members();
    put(&mut option, "description", field_json("string", "可选补充说明"));
    put(&mut option, "label", field_json("string", "选项标签"));
    let mut option_needs = no_items();
    put_item(&mut option_needs, jstr("label"));
    let mut options = no_members();
    put(&mut options, "description", jstr("2-4 个选项"));
    put(&mut options, "items", object_json(option, option_needs));
    put(&mut options, "maxItems", jnum(4));
    put(&mut options, "minItems", jnum(2));
    put(&mut options, "type", jstr("array"));
    let mut question = no_members();
    put(&mut question, "header", field_json("string", "可选短标签（≤12 字）"));
    put(&mut question, "multi_select", field_json("boolean", "可选，true 允许多选（默认 false）"));
    put(&mut question, "options", jobj(options));
    put(&mut question, "question", field_json("string", "完整问题文本"));
    let mut question_needs = no_items();
    put_item(&mut question_needs, jstr("question"));
    put_item(&mut question_needs, jstr("options"));
    let mut questions = no_members();
    put(&mut questions, "description", jstr("1-4 个问题"));
    put(&mut questions, "items", object_json(question, question_needs));
    put(&mut questions, "maxItems", jnum(4));
    put(&mut questions, "minItems", jnum(1));
    put(&mut questions, "type", jstr("array"));
    let mut properties = no_members();
    put(&mut properties, "questions", jobj(questions));
    let mut required = no_items();
    put_item(&mut required, jstr("questions"));
    object_json(properties, required)
}

/// What `ExitPlanMode` is for.
pub const EXIT_PLAN_MODE_DESCRIPTION: &'static str = "计划写好、准备开始执行时调用：请用户确认后退出计划模式。仅在计划模式下可用。";

/// The parameters of `ExitPlanMode`.
pub open spec fn exit_plan_mode_tree() -> JsonV {
    object_tree(
        ms().push(
            ("plan"@, field_tree("string"@, "计划摘要（展示在确认弹窗里，截取前 500 字符）"@)),
        ),
        Seq::<JsonV>::empty(),
    )
}

fn exit_plan_mode_json() -> (r: Json)
    ensures
        r.says() == exit_plan_mode_tree(),
{
    let mut properties = no_members();
    put(&mut properties, "plan", field_json("string", "计划摘要（展示在确认弹窗里，截取前 500 字符）"));
    let required = no_items();
    object_json(properties, required)
}

/// What `EnterPlanMode` is for.
pub const ENTER_PLAN_MODE_DESCRIPTION: &'static str = "任务复杂或改动范围大时调用：进入计划模式（只读调研），计划写好后用 ExitPlanMode 请用户确认执行。";

/// The parameters of `EnterPlanMode`.
pub open spec fn enter_plan_mode_tree() -> JsonV {
    object_tree(
        ms().push(
            ("reason"@, field_tree("string"@, "为什么进入计划模式（可选，仅记录）"@)),
        ),
        Seq::<JsonV>::empty(),
    )
}

fn enter_plan_mode_json() -> (r: Json)
    ensures
        r.says() == enter_plan_mode_tree(),
{
    let mut properties = no_members();
    put(&mut properties, "reason", field_json("string", "为什么进入计划模式（可选，仅记录）"));
    let required = no_items();
    object_json(properties, required)
}

/// What `ReadMediaFile` is for.
pub const READ_MEDIA_FILE_DESCRIPTION: &'static str = "读取图片文件进上下文（PNG/JPEG/GIF/WebP，魔数嗅探不信任扩展名）。默认等比缩放到最长边 2000 像素；region 可按原图坐标裁剪局部，full_resolution=true 不缩放。需要模型支持图片输入。";

/// The parameters of `ReadMediaFile`.
pub open spec fn read_media_file_tree() -> JsonV {
    object_tree(
        ms().push(
            ("full_resolution"@, field_tree("boolean"@, "true 时不做 2000px 缩放（默认 false）"@)),
        ).push(
            ("path"@, field_tree("string"@, "相对工作目录的图片路径"@)),
        ).push(
            ("region"@, JsonV::Obj(
                ms().push(
                    ("description"@, JsonV::Str("可选裁剪区域（原图像素坐标；越界自动夹紧，不相交报错）"@)),
                ).push(
                    ("properties"@, JsonV::Obj(
                        ms().push(
                            ("height"@, integer_tree()),
                        ).push(
                            ("width"@, integer_tree()),
                        ).push(
                            ("x"@, integer_tree()),
                        ).push(
                            ("y"@, integer_tree()),
                        ),
                    )),
                ).push(
                    ("required"@, JsonV::Arr(Seq::<JsonV>::empty().push(JsonV::Str("x"@)).push(JsonV::Str("y"@)).push(JsonV::Str("width"@)).push(JsonV::Str("height"@)))),
                ).push(
                    ("type"@, JsonV::Str("object"@)),
                ),
            )),
        ),
        Seq::<JsonV>::empty().push(JsonV::Str("path"@)),
    )
}

fn read_media_file_json() -> (r: Json)
    ensures
        r.says() == read_media_file_tree(),
{
    let mut region = no_members();
    put(&mut region, "height", integer_json());
    put(&mut region, "width", integer_json());
    put(&mut region, "x", integer_json());
    put(&mut region, "y", integer_json());
    let mut region_needs = no_items();
    put_item(&mut region_needs, jstr("x"));
    put_item(&mut region_needs, jstr("y"));
    put_item(&mut region_needs, jstr("width"));
    put_item(&mut region_needs, jstr("height"));
    let mut asked = no_members();
    put(&mut asked, "description", jstr("可选裁剪区域（原图像素坐标；越界自动夹紧，不相交报错）"));
    put(&mut asked, "properties", jobj(region));
    put(&mut asked, "required", jarr(region_needs));
    put(&mut asked, "type", jstr("object"));
    let mut properties = no_members();
    put(&mut properties, "full_resolution", field_json("boolean", "true 时不做 2000px 缩放（默认 false）"));
    put(&mut properties, "path", field_json("string", "相对工作目录的图片路径"));
    put(&mut properties, "region", jobj(asked));
    let mut required = no_items();
    put_item(&mut required, jstr("path"));
    object_json(properties, required)
}

/// What a tool is for.
pub open spec fn description_of(tool: Tool) -> Seq<char> {
    match tool {
        Tool::Read => READ_DESCRIPTION@,
        Tool::Write => WRITE_DESCRIPTION@,
        Tool::Edit => EDIT_DESCRIPTION@,
        Tool::Glob => GLOB_DESCRIPTION@,
        Tool::Grep => GREP_DESCRIPTION@,
        Tool::Bash => BASH_DESCRIPTION@,
        Tool::TodoList => TODO_LIST_DESCRIPTION@,
        Tool::FetchUrl => FETCH_URL_DESCRIPTION@,
        Tool::TaskList => TASK_LIST_DESCRIPTION@,
        Tool::TaskOutput => TASK_OUTPUT_DESCRIPTION@,
        Tool::TaskStop => TASK_STOP_DESCRIPTION@,
        Tool::AskUserQuestion => ASK_USER_QUESTION_DESCRIPTION@,
        Tool::ExitPlanMode => EXIT_PLAN_MODE_DESCRIPTION@,
        Tool::EnterPlanMode => ENTER_PLAN_MODE_DESCRIPTION@,
        Tool::ReadMediaFile => READ_MEDIA_FILE_DESCRIPTION@,
    }
}

/// The parameters of a tool.
pub open spec fn parameters_of(tool: Tool) -> JsonV {
    match tool {
        Tool::Read => read_tree(),
        Tool::Write => write_tree(),
        Tool::Edit => edit_tree(),
        Tool::Glob => glob_tree(),
        Tool::Grep => grep_tree(),
        Tool::Bash => bash_tree(),
        Tool::TodoList => todo_list_tree(),
        Tool::FetchUrl => fetch_url_tree(),
        Tool::TaskList => task_list_tree(),
        Tool::TaskOutput => task_output_tree(),
        Tool::TaskStop => task_stop_tree(),
        Tool::AskUserQuestion => ask_user_question_tree(),
        Tool::ExitPlanMode => exit_plan_mode_tree(),
        Tool::EnterPlanMode => enter_plan_mode_tree(),
        Tool::ReadMediaFile => read_media_file_tree(),
    }
}

/// The description of a tool.
pub open spec fn schema_of(tool: Tool) -> JsonV {
    tool_tree(tool.name_text(), description_of(tool), parameters_of(tool))
}

impl Tool {
    /// What the tool is for.
    pub fn description(self) -> (r: &'static str)
        ensures
            r@ == description_of(self),
    {
        match self {
            Tool::Read => READ_DESCRIPTION,
            Tool::Write => WRITE_DESCRIPTION,
            Tool::Edit => EDIT_DESCRIPTION,
            Tool::Glob => GLOB_DESCRIPTION,
            Tool::Grep => GREP_DESCRIPTION,
            Tool::Bash => BASH_DESCRIPTION,
            Tool::TodoList => TODO_LIST_DESCRIPTION,
            Tool::FetchUrl => FETCH_URL_DESCRIPTION,
            Tool::TaskList => TASK_LIST_DESCRIPTION,
            Tool::TaskOutput => TASK_OUTPUT_DESCRIPTION,
            Tool::TaskStop => TASK_STOP_DESCRIPTION,
            Tool::AskUserQuestion => ASK_USER_QUESTION_DESCRIPTION,
            Tool::ExitPlanMode => EXIT_PLAN_MODE_DESCRIPTION,
            Tool::EnterPlanMode => ENTER_PLAN_MODE_DESCRIPTION,
            Tool::ReadMediaFile => READ_MEDIA_FILE_DESCRIPTION,
        }
    }

    fn parameters(self) -> (r: Json)
        ensures
            r.says() == parameters_of(self),
    {
        match self {
            Tool::Read => read_json(),
            Tool::Write => write_json(),
            Tool::Edit => edit_json(),
            Tool::Glob => glob_json(),
            Tool::Grep => grep_json(),
            Tool::Bash => bash_json(),
            Tool::TodoList => todo_list_json(),
            Tool::FetchUrl => fetch_url_json(),
            Tool::TaskList => task_list_json(),
            Tool::TaskOutput => task_output_json(),
            Tool::TaskStop => task_stop_json(),
            Tool::AskUserQuestion => ask_user_question_json(),
            Tool::ExitPlanMode => exit_plan_mode_json(),
            Tool::EnterPlanMode => enter_plan_mode_json(),
            Tool::ReadMediaFile => read_media_file_json(),
        }
    }

    /// The description of the tool.
    pub fn schema(self) -> (r: Json)
        ensures
            r.says() == schema_of(self),
    {
        tool_json(self.name(), self.description(), self.parameters())
    }
}

/// The descriptions of tools.
pub fn schemas_of(tools: &[Tool]) -> (r: Vec<Json>)
    ensures
        says_all(r@) == tools@.map_values(|t: Tool| schema_of(t)),
{
    let mut out: Vec<Json> = Vec::new();
    for i in 0..tools.len()
        invariant
            out.len() == i,
            forall|k: int| 0 <= k < i ==> (#[trigger] out@[k]).says() == schema_of(tools@[k]),
    {
        out.push(tools[i].schema());
    }
    proof {
        assert(says_all(out@) =~= tools@.map_values(|t: Tool| schema_of(t)));
    }
    out
}

/// The descriptions of all built-in tools.
pub fn schemas() -> (r: Vec<Json>)
    ensures
        says_all(r@) == all_built_in().map_values(|t: Tool| schema_of(t)),
{
    let v = all();
    schemas_of(v.as_slice())
}

/// The parameters of `Agent`.
pub open spec fn agent_tree() -> JsonV {
    object_tree(
        ms().push(
            ("description"@, field_tree("string"@, "3-5 词任务简述"@)),
        ).push(
            ("prompt"@, field_tree("string"@, "完整自包含的任务简报"@)),
        ).push(
            ("resume"@, field_tree("string"@, "继续已有子代理的 agent_id，与 subagent_type 互斥"@)),
        ).push(
            ("run_in_background"@, field_tree("boolean"@, "后台运行（默认 false）"@)),
        ).push(
            ("subagent_type"@, field_tree("string"@, "子代理类型，默认 general-purpose"@)),
        ),
        Seq::<JsonV>::empty().push(JsonV::Str("description"@)).push(JsonV::Str("prompt"@)),
    )
}

fn agent_json() -> (r: Json)
    ensures
        r.says() == agent_tree(),
{
    let mut properties = no_members();
    put(&mut properties, "description", field_json("string", "3-5 词任务简述"));
    put(&mut properties, "prompt", field_json("string", "完整自包含的任务简报"));
    put(&mut properties, "resume", field_json("string", "继续已有子代理的 agent_id，与 subagent_type 互斥"));
    put(&mut properties, "run_in_background", field_json("boolean", "后台运行（默认 false）"));
    put(&mut properties, "subagent_type", field_json("string", "子代理类型，默认 general-purpose"));
    let mut required = no_items();
    put_item(&mut required, jstr("description"));
    put_item(&mut required, jstr("prompt"));
    object_json(properties, required)
}

/// The description of the tool that hands a task to an agent: it lists the
/// agents that there are.
pub open spec fn agent_schema_of(profiles: Seq<ProfileV>) -> JsonV {
    tool_tree(
        "Agent"@,
        "委派一个子代理独立完成任务。可用子代理：\n"@ + join(
            profiles.map_values(|p: ProfileV| profile_line(p)),
            "\n"@,
        ),
        agent_tree(),
    )
}

/// The description of the tool that hands a task to an agent.
pub fn agent_schema(profiles: &[AgentProfile]) -> (r: Json)
    ensures
        r.says() == agent_schema_of(profiles_say(profiles@)),
{
    let description = cat(
        "委派一个子代理独立完成任务。可用子代理：\n",
        agent_description_list(profiles).as_str(),
    );
    tool_json("Agent", description.as_str(), agent_json())
}

/// The descriptions of the tools of a session: of the built-in ones, and of the
/// one that hands tasks to agents.
pub fn schemas_root(profiles: &[AgentProfile]) -> (r: Vec<Json>)
    ensures
        says_all(r@) == all_built_in().map_values(|t: Tool| schema_of(t)).push(
            agent_schema_of(profiles_say(profiles@)),
        ),
{
    let mut list = schemas();
    put_item(&mut list, agent_schema(profiles));
    list
}

proof fn lemma_keys()
    ensures
        "description"@ != "name"@,
        "function"@ != "name"@,
        "description"@ != "parameters"@,
        "name"@ != "parameters"@,
{
    reveal_strlit("description");
    reveal_strlit("name");
    reveal_strlit("function");
    reveal_strlit("parameters");
    assert("description"@.len() == 11);
    assert("name"@.len() == 4);
    assert("function"@.len() == 8);
    assert("parameters"@.len() == 10);
}

/// What a tool is described by is its name, what it is for and its parameters.
pub proof fn law_tool_tree(name: Seq<char>, description: Seq<char>, parameters: JsonV)
    ensures
        ({
            let f = at(tool_tree(name, description, parameters), "function"@);
            &&& text_at(f, "name"@) == Some(name)
            &&& text_at(f, "description"@) == Some(description)
            &&& at(f, "parameters"@) == parameters
        }),
{
    lemma_keys();
    reveal_with_fuel(crate::json::first_named, 4);
}

/// The description of a tool has the name that calls use.
pub proof fn law_schema_names_the_tool(tool: Tool)
    ensures
        text_at(at(schema_of(tool), "function"@), "name"@) == Some(tool.name_text()),
{
    law_tool_tree(tool.name_text(), description_of(tool), parameters_of(tool));
}

} // verus!
