use create3d::tools::{
    validate_tool_call, ToolDefinition, ToolSideEffect, ArgValue, ToolArguments, ToolCall, ToolPermission, ToolProtocolError,
    ToolRegistry,
};

#[test]
fn builtins_register_expected_tools() {
    let registry = ToolRegistry::builtins();
    assert!(registry.get("scene.list_entities").is_some());
    assert!(registry.get("scene.translate_selection").is_some());
    assert_eq!(registry.tool_names().len(), 6);
}

fn translate_call(x: f64, y: f64, z: f64) -> ToolCall {
    let mut args = ToolArguments::new();
    args.set("x", ArgValue::Number(x.to_bits()));
    args.set("y", ArgValue::Number(y.to_bits()));
    args.set("z", ArgValue::Number(z.to_bits()));
    ToolCall::with_arguments("scene.translate_selection", args)
}

#[test]
fn write_tool_requires_scene_write_permission() {
    let registry = ToolRegistry::builtins();
    let call = translate_call(0.0, 1.0, 0.0);
    let err = validate_tool_call(&registry, &call, &[ToolPermission::SceneRead]).unwrap_err();
    assert!(matches!(
        err,
        ToolProtocolError::MissingPermission(ToolPermission::SceneWrite)
    ));
}

#[test]
fn translate_arguments_must_include_xyz() {
    let registry = ToolRegistry::builtins();
    let call = ToolCall::with_arguments("scene.translate_selection", ToolArguments::new());
    let err = validate_tool_call(
        &registry,
        &call,
        &[ToolPermission::SceneRead, ToolPermission::SceneWrite],
    )
    .unwrap_err();
    assert!(matches!(err, ToolProtocolError::InvalidArguments { .. }));
}

#[test]
fn tool_names_come_in_name_order() {
    let registry = ToolRegistry::builtins();
    assert_eq!(
        registry.tool_names(),
        vec![
            "scene.create_entity".to_string(),
            "scene.inspect_selection".to_string(),
            "scene.list_entities".to_string(),
            "scene.set_entity_name".to_string(),
            "scene.summarize".to_string(),
            "scene.translate_selection".to_string(),
        ]
    );
}

#[test]
fn register_then_get_returns_the_tool() {
    let mut registry = ToolRegistry::new();
    assert!(registry.get("scene.summarize").is_none());
    let builtins = ToolRegistry::builtins();
    let tool = builtins.get("scene.summarize").unwrap().duplicate();
    registry.register(tool);
    assert_eq!(registry.get("scene.summarize").unwrap().name, "scene.summarize");
    assert_eq!(registry.tool_names().len(), 1);
}

#[test]
fn valid_translate_call_passes_and_unknown_tool_fails() {
    let registry = ToolRegistry::builtins();
    let call = translate_call(1.0, 2.0, 3.0);
    assert!(validate_tool_call(
        &registry,
        &call,
        &[ToolPermission::SceneRead, ToolPermission::SceneWrite]
    )
    .is_ok());
    let unknown = ToolCall::new("scene.explode");
    let err = validate_tool_call(&registry, &unknown, &[ToolPermission::SceneRead]).unwrap_err();
    assert_eq!(err, ToolProtocolError::UnknownTool("scene.explode".to_string()));
    assert_eq!(err.message(), "unknown tool: scene.explode");
}

#[test]
fn protocol_error_messages() {
    let e = ToolProtocolError::MissingPermission(ToolPermission::SceneWrite);
    assert_eq!(e.message(), "missing permission: SceneWrite");
    let e = ToolProtocolError::InvalidArguments {
        tool: "scene.create_entity".to_string(),
        message: "expected name string".to_string(),
    };
    assert_eq!(
        e.message(),
        "invalid arguments for scene.create_entity: expected name string"
    );
}

#[test]
fn arguments_set_replaces_value() {
    let mut args = ToolArguments::new();
    args.set("name", ArgValue::Text("A".to_string()));
    args.set("name", ArgValue::Text("B".to_string()));
    assert_eq!(args.text("name").unwrap(), "B");
    assert_eq!(args.entries().len(), 1);
    assert_eq!(args.number("name"), None);
}

#[test]
fn read_tools_are_read_only() {
    let registry = ToolRegistry::builtins();
    assert!(registry.get("scene.list_entities").expect("tool").is_read_only());
    assert!(!registry.get("scene.translate_selection").expect("tool").is_read_only());
}

#[test]
fn tool_names_list_the_tools_in_order() {
    let registry = ToolRegistry::builtins();
    let names: Vec<String> = registry.tools().iter().map(|tool| tool.name.clone()).collect();
    assert_eq!(names, registry.tool_names());
    let mut sorted = names.clone();
    sorted.sort();
    sorted.dedup();
    assert_eq!(sorted, names);
}

fn custom_tool(name: &str, description: &str) -> ToolDefinition {
    ToolDefinition {
        name: name.to_string(),
        description: description.to_string(),
        permissions: Vec::new(),
        side_effect: ToolSideEffect::ReadOnly,
        supports_preview: false,
    }
}

#[test]
fn register_counts_new_names_once() {
    let mut registry = ToolRegistry::builtins();
    let before = registry.tool_names().len();
    registry.register(custom_tool("custom.inspect", "first"));
    assert_eq!(registry.tool_names().len(), before + 1);
    registry.register(custom_tool("custom.inspect", "second"));
    assert_eq!(registry.tool_names().len(), before + 1);
    assert_eq!(registry.get("custom.inspect").map(|t| t.description.as_str()), Some("second"));
}
