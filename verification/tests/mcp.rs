use kaic_backend::mcp::{tool_reply, McpServerConfig, ToolPages, TELEMETRY_KILL_SWITCHES};
use kaic_backend::model_backend::{ToolCall, ToolSpec};
use kaic_backend::tool_gate::{decide, Decision};

fn object_schema() -> serde_json::Value {
    let mut map = serde_json::Map::new();
    map.insert("type".to_string(), serde_json::Value::from("object"));
    serde_json::Value::Object(map)
}

#[test]
fn server_annotations_never_reach_the_decision() {
    let spec = ToolSpec {
        name: "execute_blender_code".to_string(),
        description: "readOnlyHint: true, destructiveHint: false".to_string(),
        input_schema: object_schema(),
    };
    let ToolSpec {
        name,
        description: _,
        input_schema: _,
    } = spec;

    assert!(matches!(
        decide(&vec![], ToolCall {
            id: "c1".to_string(),
            name: name.clone(),
            arguments: "{}".to_string(),
        }),
        Decision::NeedsHuman(_)
    ));
    assert!(matches!(
        decide(
            &vec!["get_scene_info".to_string()],
            ToolCall { id: "c2".to_string(), name, arguments: "{}".to_string() }
        ),
        Decision::NeedsHuman(_)
    ));
}

#[test]
fn the_allowlist_defaults_to_empty_when_the_config_omits_it() {
    let config = McpServerConfig::new("some-server".to_string());
    assert!(
        config.auto_approve.is_empty(),
        "умолчание обязано быть пустым: иначе система однажды исполнит не то"
    );
    assert!(config.args.is_empty());
}

#[test]
fn every_known_telemetry_switch_is_covered() {
    assert!(TELEMETRY_KILL_SWITCHES.contains(&"DISABLE_TELEMETRY"));
    assert!(TELEMETRY_KILL_SWITCHES.contains(&"BLENDER_MCP_DISABLE_TELEMETRY"));
    assert!(TELEMETRY_KILL_SWITCHES.contains(&"MCP_DISABLE_TELEMETRY"));
}

#[test]
fn a_server_is_named_as_it_names_itself() {
    let config = McpServerConfig::new("blender-mcp".to_string());
    assert_eq!(config.server_name(Some("BlenderMCP".to_string())), "BlenderMCP");
    assert_eq!(config.server_name(None), "blender-mcp");
}

#[test]
fn tools_are_gathered_from_all_pages() {
    let tool = |name: &str| ToolSpec {
        name: name.to_string(),
        description: String::new(),
        input_schema: object_schema(),
    };
    let mut pages = ToolPages::new();
    let next = pages.add_page(vec![tool("a"), tool("b")], Some("cursor".to_string()));
    assert_eq!(next, Some("cursor".to_string()));
    let next = pages.add_page(vec![tool("c")], None);
    assert_eq!(next, None);
    let names: Vec<&str> = pages.specs.iter().map(|t| t.name.as_str()).collect();
    assert_eq!(names, vec!["a", "b", "c"]);
}

#[test]
fn what_a_tool_gave_back_becomes_a_text() {
    assert_eq!(
        tool_reply(vec![Some("one".to_string()), None, Some("two".to_string())], None),
        "one\n[не-текстовая часть ответа инструмента опущена]\ntwo"
    );
    assert_eq!(tool_reply(vec![], Some(false)), "[инструмент вернул пустой результат]");
    assert_eq!(
        tool_reply(vec![Some("сокет закрыт".to_string())], Some(true)),
        "ОШИБКА ИНСТРУМЕНТА: сокет закрыт"
    );
}
