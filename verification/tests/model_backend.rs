use kaic_backend::model_backend::{
    interpret_completion, listed_as_loaded, listed_instances, wire_message, wire_request,
    CompletionMessage, GenerateRequest, GenerateResponse, LmStudioBackend, Message, ModelInfo,
    Role, ToolCall, ToolSpec,
};
use kaic_backend::resource_registry::Temperature;

fn request(tools: Vec<ToolSpec>, temperature: Option<Temperature>) -> GenerateRequest {
    GenerateRequest {
        messages: vec![Message::new(Role::User, "привет".to_string())],
        temperature,
        tools,
    }
}

fn call(id: &str, name: &str) -> ToolCall {
    ToolCall {
        id: id.to_string(),
        name: name.to_string(),
        arguments: "{}".to_string(),
    }
}

#[test]
fn no_tools_means_the_request_is_byte_for_byte_the_old_one() {
    let request = request(Vec::new(), None);
    let wire = wire_request("any", &request);
    assert!(wire.tools.is_none(), "ключ tools присутствует у запроса без инструментов");
    assert_eq!(wire.model, "any");
    assert_eq!(wire.messages.len(), 1);
    let message = &wire.messages[0];
    assert!(message.tool_call_id.is_none());
    assert!(message.tool_calls.is_none());
    assert_eq!(message.role, "user");
    assert_eq!(message.content, "привет");
}

#[test]
fn a_tool_reaches_the_provider_with_its_schema_untouched() {
    let schema: serde_json::Value = serde_json::from_str(
        r#"{"type": "object", "properties": {"code": {"type": "string"}}, "required": ["code"]}"#,
    )
    .unwrap();
    let request = request(
        vec![ToolSpec {
            name: "execute_blender_code".to_string(),
            description: "Выполнить код в Blender".to_string(),
            input_schema: schema.clone(),
        }],
        None,
    );
    let wire = wire_request("any", &request);

    let tools = wire.tools.expect("инструменты уходят");
    assert_eq!(tools.len(), 1);
    assert_eq!(tools[0].kind, "function");
    assert_eq!(tools[0].name, "execute_blender_code");
    assert_eq!(tools[0].description, "Выполнить код в Blender");
    assert_eq!(*tools[0].parameters, schema);
}

#[test]
fn a_tool_result_carries_its_call_id_back() {
    let message = Message::tool_result("call_42".to_string(), "{\"ok\":true}".to_string());
    let wire = wire_message(&message);

    assert_eq!(wire.role, "tool");
    assert_eq!(wire.tool_call_id, Some("call_42"));
    assert_eq!(wire.content, "{\"ok\":true}");
}

#[test]
fn the_assistants_calls_reach_the_provider() {
    let message = Message::assistant_tool_calls(vec![call("c1", "look"), call("c2", "act")]);
    let wire = wire_message(&message);
    assert_eq!(wire.role, "assistant");
    assert_eq!(wire.content, "");
    let calls = wire.tool_calls.expect("вызовы уходят");
    assert_eq!(calls.len(), 2);
    assert_eq!((calls[1].id, calls[1].kind), ("c2", "function"));
    assert_eq!((calls[1].name, calls[1].arguments), ("act", "{}"));
    assert_eq!(Role::System.as_wire_str(), "system");
}

#[test]
fn temperature_none_is_absent_from_request_body() {
    let request = request(Vec::new(), None);
    assert!(wire_request("m", &request).temperature.is_none(), "ключ temperature присутствует");
}

#[test]
fn temperature_some_is_present_in_request_body() {
    let request = request(Vec::new(), Some(Temperature { bits: 0.7_f32.to_bits() }));
    let sent = wire_request("m", &request).temperature.expect("температура уходит");
    assert_eq!(f32::from_bits(sent.bits) as f64, 0.7_f32 as f64);
}

#[test]
fn an_answer_without_choices_is_an_error_not_an_empty_string() {
    let text = match interpret_completion(Vec::new()) {
        Ok(response) => panic!(
            "ответ без вариантов обязан быть отказом, а вернулось Ok({:?})",
            response.text()
        ),
        Err(err) => err,
    };
    assert_eq!(text, "LM Studio вернула ответ без вариантов (пустой choices)");
}

#[test]
fn a_well_formed_answer_still_comes_through() {
    let response = match interpret_completion(vec![CompletionMessage {
        content: Some("горное озеро".to_string()),
        tool_calls: None,
    }]) {
        Ok(response) => response,
        Err(err) => panic!("нормальный ответ обязан пройти: {err}"),
    };
    assert_eq!(response.text(), Some("горное озеро"));
}

#[test]
fn a_tool_call_answer_becomes_tool_calls_not_text() {
    let response = interpret_completion(vec![CompletionMessage {
        content: None,
        tool_calls: Some(vec![call("call_1", "get_scene_info")]),
    }]);
    match response {
        Ok(GenerateResponse::ToolCalls(calls)) => {
            assert_eq!(calls.len(), 1);
            assert_eq!(calls[0].id, "call_1");
            assert_eq!(calls[0].name, "get_scene_info");
            assert_eq!(calls[0].arguments, "{}");
        }
        Ok(GenerateResponse::Text(text)) => panic!("вызов инструмента принят за текст: {text:?}"),
        Err(err) => panic!("ответ разбирается: {err}"),
    }
}

#[test]
fn an_answer_with_nothing_in_it_is_an_empty_text() {
    let empty = interpret_completion(vec![CompletionMessage {
        content: None,
        tool_calls: Some(Vec::new()),
    }]);
    match empty {
        Ok(response) => assert_eq!(response.text(), Some("")),
        Err(err) => panic!("{err}"),
    }
    let calls = GenerateResponse::ToolCalls(vec![call("a", "b")]);
    assert_eq!(calls.text(), None);
}

#[test]
fn the_servers_list_says_what_is_loaded() {
    let models = vec![
        ModelInfo { key: "idle".to_string(), loaded_instances: Vec::new() },
        ModelInfo {
            key: "busy".to_string(),
            loaded_instances: vec!["busy".to_string(), "busy:2".to_string()],
        },
    ];
    assert!(listed_as_loaded(&models, "busy"));
    assert!(!listed_as_loaded(&models, "idle"));
    assert!(!listed_as_loaded(&models, "unknown"));
    assert_eq!(listed_instances(&models), vec!["busy", "busy:2"]);
}

#[test]
fn an_instance_is_remembered_until_it_is_unloaded() {
    let mut backend = LmStudioBackend::new("http://x:1".to_string(), None);
    assert_eq!(backend.models_url(), "http://x:1/api/v1/models");
    assert_eq!(backend.load_url(), "http://x:1/api/v1/models/load");
    assert_eq!(backend.unload_url(), "http://x:1/api/v1/models/unload");
    assert_eq!(backend.chat_url(), "http://x:1/v1/chat/completions");
    assert_eq!(backend.instance_of("m"), "m");
    backend.loaded("m", "m:2".to_string());
    assert_eq!(backend.instance_of("m"), "m:2");
    assert_eq!(backend.instance_of("n"), "n");
    backend.unloaded("m");
    assert_eq!(backend.instance_of("m"), "m");
}
