use pig_core::agent::{
    agent_description_list, builtin_profiles, child_tool_set, find_profile, load_profiles,
    parse_agent_markdown, resolve_subagent_model, set_model_override, AgentProfile, AgentSource,
    AgentsState, ModelOverride,
};
use pig_core::json::{parse_json, Json};
use pig_core::prompt::{agents_md, subagent_system_prompt, Surroundings};
use pig_core::protocol::{ApiFormat, AppConfig, ModelConfig, ProviderConfig};
use pig_core::provider::ResolvedModel;
use pig_core::tool::all;

fn json(text: &str) -> Json {
    parse_json(text).expect("JSON")
}

fn subagent(model: Option<&str>, level: Option<&str>) -> AgentProfile {
    AgentProfile {
        name: "tester".into(),
        description: "d".into(),
        tools: None,
        model: model.map(str::to_string),
        thought_level: level.map(str::to_string),
        max_turns: None,
        inject_agents_md: true,
        system_prompt: "正文。".into(),
        source: AgentSource::BuiltIn,
    }
}

fn no_state() -> AgentsState {
    AgentsState { model_overrides: vec![] }
}

fn state(name: &str, model: &str, level: &str) -> AgentsState {
    AgentsState {
        model_overrides: vec![(
            name.to_string(),
            ModelOverride {
                model: Some(model.to_string()),
                thought_level: Some(level.to_string()),
            },
        )],
    }
}

fn all_tool_names() -> Vec<String> {
    all().iter().map(|t| t.name().to_string()).collect()
}

fn test_config() -> AppConfig {
    let mut m1 = ModelConfig::new("m1", 100_000, 8_000);
    m1.cap_web_search = true;
    m1.input_image = true;
    m1.reasoning_params = vec![
        ("low".to_string(), json(r#"{"effort": "low"}"#)),
        ("high".to_string(), json(r#"{"effort": "high"}"#)),
    ];
    let m2 = ModelConfig::new("m2", 200_000, 16_000);
    AppConfig {
        providers: vec![
            ProviderConfig {
                id: "p1".into(),
                name: "供应商一".into(),
                base_url: "http://p1.local".into(),
                api_key: "key-1".into(),
                api_format: ApiFormat::OpenAiChat,
                enabled: true,
                models: vec![m1],
            },
            ProviderConfig {
                id: "p2".into(),
                name: "供应商二".into(),
                base_url: "http://p2.local".into(),
                api_key: "key-2".into(),
                api_format: ApiFormat::AnthropicMessages,
                enabled: true,
                models: vec![m2],
            },
        ],
        default_provider: "p1".into(),
        default_model: "m1".into(),
    }
}

fn parent_model() -> ResolvedModel {
    ResolvedModel {
        base_url: "http://parent.local".into(),
        api_key: "parent-key".into(),
        model: "parent-model".into(),
        context_window: 1,
        max_output_tokens: 1,
        api_format: ApiFormat::OpenAiChat,
        reasoning_params: Some(json(r#"{"effort": "max"}"#)),
        cap_web_search: false,
        web_search_tool: None,
        input_image: false,
        provider_name: "父供应商".into(),
    }
}

#[test]
fn parse_full_frontmatter() {
    let md = r#"---
name: code-review
description: "审查代码改动"
tools:
  - Read
  - Grep
  - "Bash"
model: deepseek/deepseek-chat
thoughtLevel: high
maxTurns: 30
injectAgentsMd: false
unknown: 忽略我
---

你是代码审查员，只输出问题清单。
"#;
    let p = parse_agent_markdown(md).expect("完整 frontmatter 应解析成功");
    assert_eq!(p.name, "code-review");
    assert_eq!(p.description, "审查代码改动", "值两侧引号应剥离");
    assert_eq!(
        p.tools,
        Some(vec![
            "Read".to_string(),
            "Grep".to_string(),
            "Bash".to_string()
        ])
    );
    assert_eq!(p.model.as_deref(), Some("deepseek/deepseek-chat"));
    assert_eq!(p.thought_level.as_deref(), Some("high"));
    assert_eq!(p.max_turns, Some(30));
    assert!(!p.inject_agents_md);
    assert_eq!(p.system_prompt, "你是代码审查员，只输出问题清单。");
}

#[test]
fn parse_minimal_frontmatter() {
    // 只有必填字段：其余取缺省值
    let md = "---\nname: helper\ndescription: 简单助手\n---\n做该做的事。";
    let p = parse_agent_markdown(md).expect("最小 frontmatter");
    assert_eq!(p.tools, None, "tools 缺省 = 全部");
    assert_eq!(p.model, None, "model 缺省 = 继承");
    assert_eq!(p.thought_level, None);
    assert_eq!(p.max_turns, None);
    assert!(p.inject_agents_md, "inject_agents_md 缺省 true");
    assert_eq!(p.system_prompt, "做该做的事。");
}

#[test]
fn parse_inline_list() {
    let md = "---\nname: helper\ndescription: d\ntools: [Read, Grep, \"Bash\"]\n---\n正文。";
    let p = parse_agent_markdown(md).expect("行内列表");
    assert_eq!(
        p.tools,
        Some(vec![
            "Read".to_string(),
            "Grep".to_string(),
            "Bash".to_string()
        ])
    );
}

#[test]
fn parse_dash_list_with_comments() {
    // 缩进 `- item` 列表 + # 注释行 + 单引号剥离
    let md = "---\n# 这是注释\nname: helper\ndescription: d\ntools:\n  - Read  \n  - 'Glob'\n---\n正文。";
    let p = parse_agent_markdown(md).expect("破折号列表");
    assert_eq!(p.tools, Some(vec!["Read".to_string(), "Glob".to_string()]));
}

#[test]
fn parse_unknown_fields_ignored() {
    let md = "---\nname: helper\ndescription: d\nfoo: bar\nzzz:\n  - a\n---\n正文。";
    let p = parse_agent_markdown(md).expect("未知字段应被忽略");
    assert_eq!(p.name, "helper");
    assert_eq!(p.tools, None, "未知字段的列表不应串到 tools");
}

#[test]
fn parse_missing_name_err() {
    let md = "---\ndescription: d\n---\n正文。";
    assert!(parse_agent_markdown(md).unwrap_err().contains("name"));
}

#[test]
fn parse_missing_description_err() {
    let md = "---\nname: helper\n---\n正文。";
    assert!(
        parse_agent_markdown(md)
            .unwrap_err()
            .contains("description")
    );
}

#[test]
fn parse_invalid_name_err() {
    let too_long = "x".repeat(51);
    for bad in ["ab", "has space", "under_score", too_long.as_str()] {
        let md = format!("---\nname: {bad}\ndescription: d\n---\n正文。");
        assert!(parse_agent_markdown(&md).is_err(), "name {bad:?} 应非法");
    }
}

#[test]
fn parse_bad_max_turns_err() {
    for bad in ["0", "-1", "abc"] {
        let md = format!("---\nname: helper\ndescription: d\nmaxTurns: {bad}\n---\n正文。");
        assert!(parse_agent_markdown(&md).is_err(), "maxTurns={bad} 应报错");
    }
}

#[test]
fn parse_model_inherit_is_none() {
    for value in ["inherit", "main", ""] {
        let md = format!("---\nname: helper\ndescription: d\nmodel: {value}\n---\n正文。");
        let p = parse_agent_markdown(&md).expect("inherit/main/空 应解析为继承");
        assert_eq!(p.model, None, "model: {value:?} 应为 None");
    }
}

#[test]
fn parse_no_frontmatter_err() {
    assert!(parse_agent_markdown("没有 frontmatter 的正文").is_err());
    assert!(parse_agent_markdown("").is_err());
}

#[test]
fn load_profiles_override_and_sort() {
    let user = vec![
        "---\nname: explore\ndescription: 用户版 explore\n---\n用户正文。".to_string(),
        "---\nname: z-helper\ndescription: 用户助手\n---\n正文。".to_string(),
        "这不是档案".to_string(),
    ];
    let project =
        vec!["---\nname: explore\ndescription: 项目版 explore\n---\n项目正文。".to_string()];
    let profiles = load_profiles(&user, &project, &no_state());
    let names: Vec<&str> = profiles.iter().map(|p| p.name.as_str()).collect();
    assert_eq!(names, ["explore", "general-purpose", "z-helper"]);
    let explore = find_profile(&profiles, "explore").expect("explore");
    assert_eq!(explore.description, "项目版 explore");
    assert_eq!(explore.source, AgentSource::Project);
    assert_eq!(explore.system_prompt, "项目正文。");
    let helper = find_profile(&profiles, "z-helper").expect("z-helper");
    assert_eq!(helper.source, AgentSource::User);
    let general = find_profile(&profiles, "general-purpose").expect("general-purpose");
    assert_eq!(general.source, AgentSource::BuiltIn);
}

#[test]
fn load_profiles_user_overrides_builtin() {
    let user = vec!["---\nname: explore\ndescription: 用户版 explore\n---\n正文。".to_string()];
    let profiles = load_profiles(&user, &[], &no_state());
    let explore = find_profile(&profiles, "explore").expect("explore");
    assert_eq!(explore.description, "用户版 explore");
    assert_eq!(explore.source, AgentSource::User);
}

#[test]
fn load_profiles_missing_dirs_ok() {
    let profiles = load_profiles(&[], &[], &no_state());
    assert_eq!(profiles.len(), 2);
}

#[test]
fn state_override_applies_to_builtin() {
    let profiles = load_profiles(&[], &[], &state("general-purpose", "p1/m1", "low"));
    let general = find_profile(&profiles, "general-purpose").expect("general-purpose");
    assert_eq!(general.model.as_deref(), Some("p1/m1"));
    assert_eq!(general.thought_level.as_deref(), Some("low"));
    let explore = find_profile(&profiles, "explore").expect("explore");
    assert_eq!(explore.model, None);
}

#[test]
fn state_override_skipped_when_frontmatter_has_model() {
    let user =
        vec!["---\nname: custom\ndescription: d\nmodel: p2/m2\n---\n正文。".to_string()];
    let profiles = load_profiles(&user, &[], &state("custom", "p9/m9", "max"));
    let custom = find_profile(&profiles, "custom").expect("custom");
    assert_eq!(custom.model.as_deref(), Some("p2/m2"));
    assert_eq!(custom.thought_level, None);
}

#[test]
fn set_model_override_roundtrip() {
    let set = set_model_override(no_state(), "explore", Some("p1/m1"), Some("high"));
    let profiles = load_profiles(&[], &[], &set);
    let explore = find_profile(&profiles, "explore").expect("explore");
    assert_eq!(explore.model.as_deref(), Some("p1/m1"));
    assert_eq!(explore.thought_level.as_deref(), Some("high"));
    let cleared = set_model_override(set, "explore", None, None);
    assert!(cleared.model_overrides.is_empty());
    let profiles = load_profiles(&[], &[], &cleared);
    let explore = find_profile(&profiles, "explore").expect("explore");
    assert_eq!(explore.model, None);
    assert_eq!(explore.thought_level, None);
}

#[test]
fn subagent_prompt_composition() {
    let e = Surroundings {
        cwd: "/w/proj",
        os: "linux",
        arch: "x86_64",
        date: "2026-01-02",
        git: None,
    };
    let agents = agents_md(None, Some("项目规则"));
    let mut profile = subagent(None, None);
    profile.system_prompt = "档案正文。".into();
    let prompt = subagent_system_prompt(&e, &profile, &agents);
    assert!(prompt.contains("<env>"));
    assert!(prompt.contains("工作区 AGENTS.md"));
    assert!(prompt.contains("项目规则"));
    assert!(prompt.ends_with("档案正文。"));
    profile.inject_agents_md = false;
    let prompt = subagent_system_prompt(&e, &profile, &agents);
    assert!(!prompt.contains("AGENTS.md"));
    assert!(prompt.ends_with("档案正文。"));
}

#[test]
fn resolve_inherit_clones_parent() {
    let parent = parent_model();
    // 继承时 thought_level 应被忽略
    let resolved =
        resolve_subagent_model(&test_config(), &parent, &subagent(None, Some("low")), &[])
            .expect("继承");
    assert_eq!(resolved.model, "parent-model");
    assert_eq!(resolved.api_key, "parent-key");
    assert_eq!(
        resolved.reasoning_params, parent.reasoning_params,
        "继承时沿用父模型推理参数"
    );
}

#[test]
fn a_key_of_its_own_is_put_in() {
    let mut config = test_config();
    config.providers[1].api_key = "x-${KEY}".to_string();
    let env = [("KEY".to_string(), "k".to_string())];
    let own =
        resolve_subagent_model(&config, &parent_model(), &subagent(Some("p2/m2"), None), &env).unwrap();
    assert_eq!(own.api_key, "x-k");
    let mut parent = parent_model();
    parent.api_key = "${KEY}".to_string();
    let same = resolve_subagent_model(&config, &parent, &subagent(None, None), &env).unwrap();
    assert_eq!(same.api_key, "${KEY}");
}

#[test]
fn resolve_explicit_provider_model_ok() {
    let resolved = resolve_subagent_model(
        &test_config(),
        &parent_model(),
        &subagent(Some("p2/m2"), None),
        &[],
    )
    .expect("p2/m2 应解析成功");
    assert_eq!(resolved.model, "m2");
    assert_eq!(resolved.base_url, "http://p2.local");
    assert_eq!(resolved.api_key, "key-2");
    assert_eq!(resolved.api_format, ApiFormat::AnthropicMessages);
    assert_eq!(resolved.provider_name, "供应商二");
    assert_eq!(resolved.context_window, 200_000);
    assert_eq!(resolved.reasoning_params, None, "未给档位 = 无推理参数");
}

#[test]
fn resolve_bare_model_uses_default_provider() {
    let resolved =
        resolve_subagent_model(&test_config(), &parent_model(), &subagent(Some("m1"), None), &[])
            .expect("裸 modelId 应命中默认供应商");
    assert_eq!(resolved.base_url, "http://p1.local");
    assert!(resolved.cap_web_search, "能力标记取自 ModelConfig");
    assert!(resolved.input_image);
}

#[test]
fn resolve_bad_provider_err_lists_available() {
    let err = resolve_subagent_model(
        &test_config(),
        &parent_model(),
        &subagent(Some("p9/m1"), None),
        &[],
    )
    .unwrap_err();
    assert!(err.contains("p9"), "应点名坏供应商: {err}");
    assert!(
        err.contains("p1/m1") && err.contains("p2/m2"),
        "应列可用 providerId/modelId 全集: {err}"
    );
}

#[test]
fn resolve_bad_model_err_lists_available() {
    let err = resolve_subagent_model(
        &test_config(),
        &parent_model(),
        &subagent(Some("p1/m9"), None),
        &[],
    )
    .unwrap_err();
    assert!(err.contains("m9"), "应点名坏模型: {err}");
    assert!(err.contains("p1/m1"), "应列可用全集: {err}");
}

#[test]
fn resolve_bad_thought_level_err_lists_levels() {
    let err = resolve_subagent_model(
        &test_config(),
        &parent_model(),
        &subagent(Some("p1/m1"), Some("max")),
        &[],
    )
    .unwrap_err();
    assert!(err.contains("max"), "应点名坏档位: {err}");
    assert!(
        err.contains("low") && err.contains("high"),
        "应列该模型可用档位: {err}"
    );
}

#[test]
fn resolve_good_thought_level_injects_params() {
    let resolved = resolve_subagent_model(
        &test_config(),
        &parent_model(),
        &subagent(Some("p1/m1"), Some("high")),
        &[],
    )
    .expect("好档位");
    assert_eq!(
        resolved.reasoning_params,
        Some(json(r#"{"effort": "high"}"#)),
        "档位参数应注入 reasoning_params"
    );
}

fn three_profiles() -> Vec<AgentProfile> {
    let mut profiles = builtin_profiles();
    profiles.push(subagent(None, None)); // name = "tester"
    profiles
}

#[test]
fn find_exact_match() {
    let profiles = three_profiles();
    assert_eq!(find_profile(&profiles, "explore").unwrap().name, "explore");
}

#[test]
fn find_normalized_match() {
    let profiles = three_profiles();
    for query in [
        "General-Purpose",
        "general purpose",
        "GENERAL_PURPOSE",
        "generalpurpose",
    ] {
        let found =
            find_profile(&profiles, query).unwrap_or_else(|e| panic!("{query} 应命中: {e}"));
        assert_eq!(found.name, "general-purpose", "归一匹配 {query}");
    }
}

#[test]
fn find_ambiguous_err_lists_candidates() {
    // "my-agent" 与 "my_agent" 归一后相同 → 归一查询命中两个
    let mut a = subagent(None, None);
    a.name = "my-agent".into();
    let mut b = subagent(None, None);
    b.name = "my_agent".into();
    let err = find_profile(&[a, b], "myagent").unwrap_err();
    assert!(
        err.contains("my-agent") && err.contains("my_agent"),
        "应列候选名: {err}"
    );
}

#[test]
fn find_missing_err_lists_all() {
    let profiles = three_profiles();
    let err = find_profile(&profiles, "nope").unwrap_err();
    for name in ["explore", "general-purpose", "tester"] {
        assert!(err.contains(name), "应列可用 {name}: {err}");
    }
}

#[test]
fn child_set_explore_read_only() {
    let explore = &builtin_profiles()[1];
    assert_eq!(explore.name, "explore");
    let tools = child_tool_set(explore, &all_tool_names(), true);
    for expected in [
        "Read",
        "Glob",
        "Grep",
        "Bash",
        "FetchURL",
        "ReadMediaFile",
        "TodoList",
    ] {
        assert!(
            tools.contains(&expected.to_string()),
            "explore 应有 {expected}"
        );
    }
    for banned in [
        "Write",
        "Edit",
        "Agent",
        "AskUserQuestion",
        "EnterPlanMode",
        "ExitPlanMode",
    ] {
        assert!(
            !tools.contains(&banned.to_string()),
            "explore 不应有 {banned}"
        );
    }
}

#[test]
fn child_set_none_tools_all_minus_forbidden() {
    let general = &builtin_profiles()[0];
    assert_eq!(general.name, "general-purpose");
    let tools = child_tool_set(general, &all_tool_names(), true);
    assert!(tools.contains(&"Bash".to_string()), "全部工具应含 Bash");
    assert!(tools.contains(&"Write".to_string()), "全部工具应含 Write");
    assert!(!tools.contains(&"Agent".to_string()), "Agent 永远剔除");
    assert!(!tools.contains(&"AskUserQuestion".to_string()));
    assert!(!tools.contains(&"EnterPlanMode".to_string()));
    assert!(!tools.contains(&"ExitPlanMode".to_string()));
}

#[test]
fn child_set_explicit_list_intersection() {
    // 列表 ∩ 全部；不存在的名字忽略；FORBIDDEN 即使显式列出也剔除
    let mut profile = subagent(None, None);
    profile.tools = Some(vec![
        "Read".into(),
        "NotExist".into(),
        "Agent".into(),
        "Bash".into(),
    ]);
    let tools = child_tool_set(&profile, &all_tool_names(), true);
    assert!(tools.contains(&"Read".to_string()));
    assert!(tools.contains(&"Bash".to_string()));
    assert!(
        !tools.contains(&"NotExist".to_string()),
        "不存在的工具名忽略"
    );
    assert!(
        !tools.contains(&"Agent".to_string()),
        "显式列出 Agent 也要剔除"
    );
    assert!(!tools.contains(&"Write".to_string()), "不在列表里的不给");
}

#[test]
fn child_set_star_means_all() {
    let mut profile = subagent(None, None);
    profile.tools = Some(vec!["*".into()]);
    let tools = child_tool_set(&profile, &all_tool_names(), true);
    assert!(tools.contains(&"Write".to_string()), "含 * = 全部");
    assert!(!tools.contains(&"Agent".to_string()));
}

#[test]
fn child_set_input_image_gates_media_tool() {
    let general = &builtin_profiles()[0];
    let with = child_tool_set(general, &all_tool_names(), true);
    assert!(
        with.contains(&"ReadMediaFile".to_string()),
        "支持图片时保留"
    );
    let without = child_tool_set(general, &all_tool_names(), false);
    assert!(
        !without.contains(&"ReadMediaFile".to_string()),
        "不支持图片时剔除"
    );
}

#[test]
fn builtin_prompts_have_delivery_suffix() {
    for p in builtin_profiles() {
        assert!(
            p.system_prompt.contains("你是子代理"),
            "{} 缺固定交付尾段",
            p.name
        );
    }
}

#[test]
fn description_list_format() {
    let list = agent_description_list(&builtin_profiles());
    assert!(list.contains("- general-purpose: "), "每行 - name: 开头");
    assert!(list.contains("（工具: 全部）"), "tools=None 显示全部");
    assert!(list.contains("- explore: "));
    assert!(
        list.contains("（工具: Read, Glob, Grep, Bash, FetchURL, ReadMediaFile, TodoList）"),
        "显式列表应逐名列出"
    );
}

