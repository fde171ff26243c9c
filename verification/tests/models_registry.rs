use pig_core::models_registry::{
    after_retry, load_cache, lookup, parse_api_json, save_cache, Lookup, ModelRegistryInfo, Registry,
};

#[test]
fn parses_limits_reasoning_and_strips_provider_prefix() {
    let raw = r#"{
        "someaggregator": {
            "models": {
                "deepseek/deepseek-v4-flash": {
                    "reasoning": true,
                    "reasoning_options": [
                        {"type": "toggle"},
                        {"type": "effort", "values": ["low", "high", "max"]},
                        {"type": "budget_tokens", "min": 1024}
                    ],
                    "limit": {"context": 1000000, "output": 384000},
                    "modalities": {"input": ["text"], "output": ["text"]}
                },
                "gpt-4o": {
                    "reasoning": false,
                    "structured_output": true,
                    "limit": {"context": 128000, "input": 127000, "output": 16384},
                    "modalities": {"input": ["text", "image"], "output": ["text"]}
                }
            }
        }
    }"#;
    let index = parse_api_json(raw);
    let flash = index.get("deepseek-v4-flash").expect("裸 ID 可查");
    assert_eq!(
        flash.reasoning_levels,
        vec!["low".to_string(), "high".to_string(), "max".to_string()]
    );
    assert_eq!(flash.context, Some(1_000_000));
    assert_eq!(flash.output, Some(384_000));
    assert_eq!(flash.full_id, "someaggregator/deepseek/deepseek-v4-flash");
    assert!(flash.input.is_none());
    assert_eq!(flash.input_modalities, vec!["text".to_string()]);

    let gpt = index.get("gpt-4o").unwrap();
    assert!(!gpt.reasoning);
    assert_eq!(gpt.input, Some(127_000));
    assert!(gpt.reasoning_levels.is_empty());
    assert!(gpt.input_modalities.contains(&"image".to_string()));
    assert_eq!(gpt.structured_output, Some(true));
    assert_eq!(flash.structured_output, None);
}

#[test]
fn missing_modalities_field_leaves_list_empty() {
    let raw = r#"{"p": {"models": {"m": {"reasoning": false}}}}"#;
    let index = parse_api_json(raw);
    assert!(index.get("m").unwrap().input_modalities.is_empty());
}

#[test]
fn official_provider_wins_over_aggregator_on_same_bare_id() {
    let raw = r#"{
        "someaggregator": {
            "models": {"m1": {"reasoning": false, "limit": {"context": 1}}}
        },
        "openai": {
            "models": {"m1": {"reasoning": true, "limit": {"context": 2, "output": 3}}}
        }
    }"#;
    let index = parse_api_json(raw);
    let m1 = index.get("m1").unwrap();
    assert_eq!(m1.full_id, "openai/m1");
    assert_eq!(m1.context, Some(2));
}

#[test]
fn bad_json_yields_empty_index() {
    assert!(parse_api_json("not json").is_empty());
    assert!(parse_api_json("{}").is_empty());
}

fn one_model() -> Registry {
    let mut index = Registry::new();
    index.insert(
        "m1".to_string(),
        ModelRegistryInfo {
            full_id: "openai/m1".into(),
            context: Some(128_000),
            input: None,
            output: Some(16_384),
            reasoning: true,
            reasoning_levels: vec!["low".into(), "high".into()],
            input_modalities: vec!["text".into(), "image".into()],
            structured_output: Some(true),
        },
    );
    index
}

#[test]
fn cache_roundtrip() {
    let index = one_model();
    let saved = save_cache(42, &index);
    let (fetched_at, loaded) = load_cache(&saved).expect("缓存可读");
    assert_eq!(fetched_at, 42);
    assert_eq!(loaded, index);
}

#[test]
fn the_cache_is_written_in_the_order_of_names() {
    let text = r#"{"schema":3,"fetched_at":9,"models":{"b":{"full_id":"x/b","reasoning":false,
        "reasoning_levels":[],"input_modalities":[]},"a":{"full_id":"x/a","reasoning":true,
        "reasoning_levels":["low"],"input_modalities":["text"],"context":7}}}"#;
    let (t, index) = load_cache(text).unwrap();
    assert_eq!(
        save_cache(t, &index),
        concat_lines(&[
            r#"{"fetched_at":9,"models":{"#,
            r#""a":{"context":7,"full_id":"x/a","input":null,"input_modalities":["text"],"#,
            r#""output":null,"reasoning":true,"reasoning_levels":["low"],"structured_output":null},"#,
            r#""b":{"context":null,"full_id":"x/b","input":null,"input_modalities":[],"#,
            r#""output":null,"reasoning":false,"reasoning_levels":[],"structured_output":null}"#,
            r#"},"schema":3}"#,
        ])
    );
    let mut other = parse_api_json("");
    other.entries = index.entries.into_iter().rev().collect();
    assert!(save_cache(t, &other).starts_with(r#"{"fetched_at":9,"models":{"a":"#));
    let (_, back) = load_cache(&save_cache(t, &other)).unwrap();
    assert_eq!(back.get("b").unwrap(), other.get("b").unwrap());
}

fn concat_lines(parts: &[&str]) -> String {
    parts.concat()
}

#[test]
fn another_form_on_disk_counts_as_none() {
    assert!(load_cache("{no JSON").is_none());
    assert!(load_cache("").is_none());
    assert!(load_cache(r#"{"schema": 2, "fetched_at": 1, "models": {}}"#).is_none());
    assert!(load_cache(r#"{"schema": 3, "models": {}}"#).is_none());
    assert!(load_cache(r#"{"schema": 3, "fetched_at": 1, "models": []}"#).is_none());
    let (t, r) = load_cache(
        r#"{"schema": 3, "fetched_at": 9, "models": {"a": 1, "m": {"full_id": "x/m",
            "reasoning": true, "reasoning_levels": [], "input_modalities": []}}}"#,
    )
    .unwrap();
    assert_eq!(t, 9);
    assert_eq!(r.entries.len(), 1);
    assert_eq!(r.get("m").unwrap().context, None);
}

#[test]
fn an_old_register_is_fetched_when_it_lacks_a_model() {
    let at_hand = (1000, one_model());
    assert_eq!(lookup(Some(&at_hand), "m1", 99_999), Lookup::Known);
    assert_eq!(lookup(Some(&at_hand), "m2", 1599), Lookup::Known);
    assert_eq!(lookup(Some(&at_hand), "m2", 1600), Lookup::Fetch);
    assert_eq!(lookup(None, "m1", 0), Lookup::Fetch);
    let never = (0, one_model());
    assert_eq!(lookup(Some(&never), "m2", 1), Lookup::Fetch);
}

#[test]
fn a_second_failure_tells_of_the_first() {
    assert_eq!(after_retry("timeout", Ok(one_model())).unwrap(), one_model());
    assert_eq!(
        after_retry("timeout", Err("refused".to_string())).unwrap_err(),
        "timeout; 重试: refused"
    );
}
