use pig_core::agent::builtin_profiles;
use pig_core::json::{parse_json, written};
use pig_core::schemas::{agent_schema, schemas, schemas_root};
use pig_core::tool::{all, Tool};

fn described(tool: Tool) -> &'static str {
    match tool {
        Tool::Read => r#"{"function":{"description":"读取工作区内文件内容，输出带「行号\\t」前缀。path 相对工作目录；文件过长时用 offset/limit 分页（单次约 10 万字符上限，单行超 2000 字符会截断）。UTF-16/GBK 文件自动转码显示，二进制文件会拒绝。","name":"Read","parameters":{"properties":{"limit":{"description":"最多读取行数，默认 2000","type":"integer"},"offset":{"description":"起始行号（从 1 开始），默认 1","type":"integer"},"path":{"description":"相对工作目录的文件路径","type":"string"}},"required":["path"],"type":"object"}},"type":"function"}"#,
        Tool::Write => r#"{"function":{"description":"写入整个文件（自动创建父目录）。大文件优先用 Edit 做局部修改。","name":"Write","parameters":{"properties":{"content":{"description":"完整文件内容","type":"string"},"path":{"description":"相对工作目录的文件路径","type":"string"}},"required":["path","content"],"type":"object"}},"type":"function"}"#,
        Tool::Edit => r#"{"function":{"description":"精确替换文件中的文本。old_string 必须在文件中唯一出现（replace_all=true 时替换全部出现）；先 Read 确认内容再改。保留原文件的编码与行尾。","name":"Edit","parameters":{"properties":{"new_string":{"description":"替换后的新文本；为空且 old_string 占整行时连行尾换行一起删除，不留空行","type":"string"},"old_string":{"description":"要被替换的原文（须唯一出现；replace_all=true 时替换全部）","type":"string"},"path":{"description":"相对工作目录的文件路径","type":"string"},"replace_all":{"description":"true 时替换全部匹配（默认 false，要求唯一出现）","type":"boolean"}},"required":["path","old_string","new_string"],"type":"object"}},"type":"function"}"#,
        Tool::Glob => r#"{"function":{"description":"按文件名模式匹配工作区文件（如 **/*.rs）。尊重 .gitignore/.ignore，包含隐藏文件，按最近修改排序；敏感文件（.env/私钥等）自动过滤。","name":"Glob","parameters":{"properties":{"path":{"description":"搜索根目录（相对工作目录），默认为工作目录","type":"string"},"pattern":{"description":"glob 模式；含 / 时按相对路径匹配，不含 / 时只匹配文件名","type":"string"}},"required":["pattern"],"type":"object"}},"type":"function"}"#,
        Tool::Grep => r#"{"function":{"description":"用正则搜索工作区文件内容，输出 文件:行号: 内容。尊重 .gitignore/.ignore，包含隐藏文件，跳过敏感文件（.env/私钥等），文件按最近修改优先搜索。","name":"Grep","parameters":{"properties":{"ignore_case":{"description":"true 时忽略大小写（默认 false）","type":"boolean"},"include":{"description":"文件名过滤 glob（如 *.rs）","type":"string"},"path":{"description":"搜索目录或单文件（相对工作目录），默认工作目录","type":"string"},"pattern":{"description":"正则表达式","type":"string"}},"required":["pattern"],"type":"object"}},"type":"function"}"#,
        Tool::Bash => r#"{"function":{"description":"执行 shell 命令并返回 stdout/stderr 与退出码。工作目录为工作区根。高风险命令会弹窗请用户确认。注入 NO_COLOR=1 / TERM=dumb / GIT_TERMINAL_PROMPT=0（git 不会交互提问挂死）。timeout 默认 60s 最大 300s，超时自动转后台任务继续跑（输出不丢）；输出超 30KB 时完整内容落盘 .pigcode/tool-results/ 并返回头尾预览。长时命令（dev server/watch/长构建）也可用 run_in_background 直接后台运行。","name":"Bash","parameters":{"properties":{"command":{"description":"要执行的命令","type":"string"},"run_in_background":{"description":"true 时后台运行，立即返回 task_id（默认 false）","type":"boolean"},"timeout":{"description":"超时秒数，默认 60，最大 300；超时后命令自动转入后台继续运行，不丢输出","type":"integer"}},"required":["command"],"type":"object"}},"type":"function"}"#,
        Tool::TodoList => r#"{"function":{"description":"管理会话级待办清单。多步任务开始时拆分为清单写入，执行中随时更新进度；省略 todos 参数读取当前清单，提供则整体替换（非增量）。同一时间至多一项 in_progress。","name":"TodoList","parameters":{"properties":{"todos":{"description":"完整的新待办清单（整体替换）","items":{"properties":{"content":{"description":"待办内容","type":"string"},"status":{"enum":["pending","in_progress","done"],"type":"string"}},"required":["content","status"],"type":"object"},"type":"array"}},"type":"object"}},"type":"function"}"#,
        Tool::FetchUrl => r#"{"function":{"description":"抓取公开网页并提取正文（HTML 自动清洗为纯文本，JSON/纯文本原样返回）。不支持需要登录的页面。URL 不允许内嵌凭据，域名会先做 DNS 私网校验。","name":"FetchURL","parameters":{"properties":{"url":{"description":"要抓取的 http/https URL","type":"string"}},"required":["url"],"type":"object"}},"type":"function"}"#,
        Tool::TaskList => r#"{"function":{"description":"列出当前会话的后台 Bash 任务（id、状态、命令、耗时）。","name":"TaskList","parameters":{"properties":{},"type":"object"}},"type":"function"}"#,
        Tool::TaskOutput => r#"{"function":{"description":"查看后台 Bash 任务的输出（尾部节选）。","name":"TaskOutput","parameters":{"properties":{"task_id":{"description":"后台任务 id（b1、b2…）","type":"string"}},"required":["task_id"],"type":"object"}},"type":"function"}"#,
        Tool::TaskStop => r#"{"function":{"description":"停止（kill）一个仍在运行的后台 Bash 任务。","name":"TaskStop","parameters":{"properties":{"task_id":{"description":"后台任务 id（b1、b2…）","type":"string"}},"required":["task_id"],"type":"object"}},"type":"function"}"#,
        Tool::AskUserQuestion => r#"{"function":{"description":"需要用户决策时，给出 1-4 个结构化问题（每题 2-4 个选项）让用户选择，而不是用纯文本提问。每题可用 multi_select 允许多选；UI 会自动追加「其他」自由输入项。","name":"AskUserQuestion","parameters":{"properties":{"questions":{"description":"1-4 个问题","items":{"properties":{"header":{"description":"可选短标签（≤12 字）","type":"string"},"multi_select":{"description":"可选，true 允许多选（默认 false）","type":"boolean"},"options":{"description":"2-4 个选项","items":{"properties":{"description":{"description":"可选补充说明","type":"string"},"label":{"description":"选项标签","type":"string"}},"required":["label"],"type":"object"},"maxItems":4,"minItems":2,"type":"array"},"question":{"description":"完整问题文本","type":"string"}},"required":["question","options"],"type":"object"},"maxItems":4,"minItems":1,"type":"array"}},"required":["questions"],"type":"object"}},"type":"function"}"#,
        Tool::ExitPlanMode => r#"{"function":{"description":"计划写好、准备开始执行时调用：请用户确认后退出计划模式。仅在计划模式下可用。","name":"ExitPlanMode","parameters":{"properties":{"plan":{"description":"计划摘要（展示在确认弹窗里，截取前 500 字符）","type":"string"}},"type":"object"}},"type":"function"}"#,
        Tool::EnterPlanMode => r#"{"function":{"description":"任务复杂或改动范围大时调用：进入计划模式（只读调研），计划写好后用 ExitPlanMode 请用户确认执行。","name":"EnterPlanMode","parameters":{"properties":{"reason":{"description":"为什么进入计划模式（可选，仅记录）","type":"string"}},"type":"object"}},"type":"function"}"#,
        Tool::ReadMediaFile => r#"{"function":{"description":"读取图片文件进上下文（PNG/JPEG/GIF/WebP，魔数嗅探不信任扩展名）。默认等比缩放到最长边 2000 像素；region 可按原图坐标裁剪局部，full_resolution=true 不缩放。需要模型支持图片输入。","name":"ReadMediaFile","parameters":{"properties":{"full_resolution":{"description":"true 时不做 2000px 缩放（默认 false）","type":"boolean"},"path":{"description":"相对工作目录的图片路径","type":"string"},"region":{"description":"可选裁剪区域（原图像素坐标；越界自动夹紧，不相交报错）","properties":{"height":{"type":"integer"},"width":{"type":"integer"},"x":{"type":"integer"},"y":{"type":"integer"}},"required":["x","y","width","height"],"type":"object"}},"required":["path"],"type":"object"}},"type":"function"}"#,
    }
}

#[test]
fn tools_are_described_word_for_word() {
    for tool in all() {
        assert_eq!(tool.schema(), parse_json(described(tool)).unwrap());
        assert_eq!(written(&tool.schema()), described(tool));
        let name = tool.schema().get("function").and_then(|f| f.str_at("name")).unwrap();
        assert_eq!(name, tool.name());
    }
    assert_eq!(schemas().len(), all().len());
}

#[test]
fn agents_are_offered_behind_the_tools() {
    let profiles = builtin_profiles();
    let list = schemas_root(&profiles);
    assert_eq!(list.len(), all().len() + 1);
    let agent = agent_schema(&profiles);
    assert_eq!(list.last().unwrap(), &agent);
    let function = agent.get("function").unwrap();
    assert_eq!(function.str_at("name").unwrap(), "Agent");
    let text = function.str_at("description").unwrap();
    assert!(text.starts_with("委派一个子代理独立完成任务。可用子代理：\n- "), "{text}");
    assert!(text.contains("general-purpose"), "{text}");
    assert_eq!(
        written(function.get("parameters").unwrap().get("required").unwrap()),
        r#"["description","prompt"]"#
    );
}
