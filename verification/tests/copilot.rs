use create3d::copilot::{
    parse_chat_response, EntityEntry, ReadOutput, ChatArguments, ChatFunction, ChatMessage, ChatToolCall, classify_prompt, is_write_tool, normalize_write_call, parse_create_name, parse_rename_target,
    ContextBuilder, ContextPack, CopilotError, CopilotResponse, MockModelProvider, PromptIntent,
    RemoteLlmConfig, RemoteStubProvider, SceneOperation, SceneStats, ToolExecutor, TranslationPlan,
};
use create3d::tools::{ArgValue, ToolArguments, ToolCall, ToolPermission, ToolProtocolError, ToolRegistry};

const HERO_ID: &str = "01J0000000000000000000HERO";

fn stats(count: usize, named: usize) -> SceneStats {
    SceneStats {
        entity_count: count,
        named,
        meshes: 0,
        point_clouds: 0,
        gaussian_splats: 0,
    }
}

fn hero_context(selected: bool) -> ContextPack {
    let (selection, descriptions) = if selected {
        (
            vec![HERO_ID.to_string()],
            vec![Some(format!("Hero ({HERO_ID}) at (0.00, 0.00, 0.00)"))],
        )
    } else {
        (Vec::new(), Vec::new())
    };
    ContextBuilder::build(&stats(1, 1), &selection, &descriptions, &ToolRegistry::builtins())
}

fn empty_context() -> ContextPack {
    ContextBuilder::build(&stats(0, 0), &Vec::new(), &Vec::new(), &ToolRegistry::builtins())
}

fn plan_up(amount: f32) -> TranslationPlan {
    TranslationPlan {
        x: (0.0f32 as f64).to_bits(),
        y: (amount as f64).to_bits(),
        z: (0.0f32 as f64).to_bits(),
        summary: format!("Translate selection by ({:.2}, {:.2}, {:.2}).", 0.0, amount, 0.0),
    }
}

#[test]
fn builds_scene_and_selection_summary() {
    let pack = hero_context(true);
    assert_eq!(pack.scene_entity_count, 1);
    assert!(pack.scene_summary.contains("1 entities"));
    assert!(pack
        .selection_summary
        .as_deref()
        .is_some_and(|summary| summary.contains("Hero")));
}

#[test]
fn scene_summary_text_is_exact() {
    let pack = ContextBuilder::build(
        &SceneStats {
            entity_count: 4,
            named: 3,
            meshes: 2,
            point_clouds: 1,
            gaussian_splats: 0,
        },
        &vec!["a".to_string(), "b".to_string()],
        &vec![Some("A (a) at (1.00, 0.00, 0.00)".to_string()), None],
        &ToolRegistry::builtins(),
    );
    assert_eq!(
        pack.scene_summary,
        "Scene has 4 entities (3 named, 2 meshes, 1 point clouds, 0 gaussian splats)."
    );
    assert_eq!(
        pack.selection_summary.as_deref(),
        Some("Selected 2 entity/entities: A (a) at (1.00, 0.00, 0.00); missing entity b")
    );
    assert_eq!(pack.available_tools.len(), 6);
    assert!(empty_context().selection_summary.is_none());
}

#[test]
fn answers_scene_count_questions() {
    let context = hero_context(false);
    let response = MockModelProvider
        .complete("how many entities?", &context, &plan_up(1.0), "new")
        .expect("response");
    assert!(matches!(response, CopilotResponse::Answer(_)));
    assert_eq!(response, CopilotResponse::Answer(context.scene_summary.clone()));
}

#[test]
fn answers_selection_list_and_help() {
    let context = hero_context(false);
    let r = MockModelProvider.complete("what is selected?", &context, &plan_up(1.0), "n").unwrap();
    assert_eq!(r, CopilotResponse::Answer("Nothing is selected.".to_string()));
    let r = MockModelProvider.complete("List the entities", &context, &plan_up(1.0), "n").unwrap();
    assert_eq!(
        r,
        CopilotResponse::Answer("The scene currently contains 1 entities.".to_string())
    );
    let r = MockModelProvider.complete("hello", &context, &plan_up(1.0), "n").unwrap();
    match r {
        CopilotResponse::Answer(a) => {
            assert!(a.starts_with("I can summarize the scene"));
            assert!(a.ends_with(&context.scene_summary));
        }
        CopilotResponse::Proposal(_) => panic!("expected answer"),
    }
}

#[test]
fn move_prompt_proposes_translation_of_selection() {
    let context = hero_context(true);
    let response = MockModelProvider
        .complete("  move up 1 ", &context, &plan_up(1.0), "new")
        .expect("proposal");
    match response {
        CopilotResponse::Proposal(p) => {
            assert_eq!(p.summary, "Translate selection by (0.00, 1.00, 0.00).");
            assert_eq!(p.provenance.agent, "copilot");
            assert_eq!(p.provenance.model_id, "mock-local");
            assert_eq!(p.provenance.user_prompt, "move up 1");
            assert_eq!(p.provenance.tool_names, vec!["scene.translate_selection".to_string()]);
            assert_eq!(
                p.operations,
                vec![SceneOperation::Translate {
                    entity_id: HERO_ID.to_string(),
                    x: 0.0f64.to_bits(),
                    y: 1.0f64.to_bits(),
                    z: 0.0f64.to_bits(),
                }]
            );
        }
        CopilotResponse::Answer(a) => panic!("expected proposal, got {a}"),
    }
}

#[test]
fn move_without_selection_is_unsupported() {
    let context = hero_context(false);
    let err = MockModelProvider
        .complete("move up 1", &context, &plan_up(1.0), "new")
        .unwrap_err();
    assert_eq!(
        err,
        CopilotError::Unsupported("Select at least one entity to translate.".to_string())
    );
}

#[test]
fn rename_and_create_proposals() {
    let context = hero_context(true);
    let r = MockModelProvider
        .complete("rename to \"Lamp\"", &context, &plan_up(1.0), "new")
        .unwrap();
    match r {
        CopilotResponse::Proposal(p) => {
            assert_eq!(p.summary, "Rename selected entity to \"Lamp\".");
            assert_eq!(
                p.operations,
                vec![SceneOperation::SetName {
                    entity_id: HERO_ID.to_string(),
                    name: "Lamp".to_string()
                }]
            );
        }
        CopilotResponse::Answer(a) => panic!("expected proposal, got {a}"),
    }
    let err = MockModelProvider
        .complete("rename to Lamp", &hero_context(false), &plan_up(1.0), "new")
        .unwrap_err();
    assert_eq!(err, CopilotError::Unsupported("Select an entity to rename.".to_string()));
    let r = MockModelProvider
        .complete("create entity Marker", &context, &plan_up(1.0), "ID9")
        .unwrap();
    match r {
        CopilotResponse::Proposal(p) => {
            assert_eq!(p.summary, "Create entity \"Marker\".");
            assert_eq!(
                p.operations,
                vec![SceneOperation::CreateEntity {
                    entity_id: "ID9".to_string(),
                    name: "Marker".to_string()
                }]
            );
        }
        CopilotResponse::Answer(a) => panic!("expected proposal, got {a}"),
    }
}

#[test]
fn prompt_parsing() {
    assert_eq!(classify_prompt("Move up 1"), PromptIntent::Translate);
    assert_eq!(classify_prompt("How many things?"), PromptIntent::SceneCount);
    assert_eq!(classify_prompt("Rename it"), PromptIntent::Rename);
    assert_eq!(classify_prompt("create a new entity"), PromptIntent::Create);
    assert_eq!(classify_prompt("bonjour"), PromptIntent::Help);
    assert_eq!(parse_rename_target("rename to 'Lamp' "), Some("Lamp".to_string()));
    assert_eq!(parse_rename_target("please rename Box"), Some("Box".to_string()));
    assert_eq!(parse_rename_target("Rename to Lamp"), None);
    assert_eq!(parse_rename_target("rename to   "), None);
    assert_eq!(parse_create_name("create entity \"Marker\""), Some("Marker".to_string()));
    assert_eq!(parse_create_name("create entity"), None);
}

#[test]
fn remote_stub_annotates_answers_when_key_present() {
    let provider = RemoteStubProvider::new(Some("test-key".into()));
    let context = empty_context();
    let response = provider
        .complete("how many entities?", &context, &plan_up(1.0), "new")
        .expect("response");
    match response {
        CopilotResponse::Answer(answer) => {
            assert!(answer.contains("remote stub"));
        }
        CopilotResponse::Proposal(_) => panic!("expected answer"),
    }
}

#[test]
fn remote_stub_without_key_matches_mock_output() {
    let provider = RemoteStubProvider::new(None);
    let context = ContextBuilder::build(
        &stats(0, 0),
        &vec![HERO_ID.to_string()],
        &vec![None],
        &ToolRegistry::builtins(),
    );
    let stub = provider
        .complete("what is selected?", &context, &plan_up(1.0), "new")
        .expect("stub");
    let mock = MockModelProvider
        .complete("what is selected?", &context, &plan_up(1.0), "new")
        .expect("mock");
    assert_eq!(stub, mock);
}

#[test]
fn remote_stub_blank_key_counts_as_none() {
    let provider = RemoteStubProvider::new(Some("   ".into()));
    let context = empty_context();
    let stub = provider.complete("how many?", &context, &plan_up(1.0), "n").unwrap();
    assert_eq!(stub, CopilotResponse::Answer(context.scene_summary.clone()));
}

#[test]
fn config_from_parts_requires_api_key() {
    assert!(RemoteLlmConfig::from_parts(None, None, None, None, None, None).is_none());
    assert!(RemoteLlmConfig::from_parts(Some("key".into()), None, None, None, None, None).is_some());
}

#[test]
fn config_falls_back_to_environment_then_defaults() {
    let c = RemoteLlmConfig::from_parts(
        None,
        Some(" ".into()),
        None,
        Some("env-key".into()),
        Some("https://example.test".into()),
        Some("m1".into()),
    )
    .unwrap();
    assert_eq!(c.api_key, "env-key");
    assert_eq!(c.base_url, "https://api.openai.com/v1");
    assert_eq!(c.model, "m1");
    assert!(RemoteLlmConfig::from_parts(Some("".into()), None, None, Some("k".into()), None, None).is_none());
}

#[test]
fn base_url_loses_trailing_slashes() {
    let c = RemoteLlmConfig::from_parts(Some("k".into()), Some("https://llm.example/v1/".into()), None, None, None, None)
        .unwrap();
    assert_eq!(c.base_url, "https://llm.example/v1");
    let c = RemoteLlmConfig::from_parts(Some("k".into()), Some("https://llm.example//".into()), None, None, None, None)
        .unwrap();
    assert_eq!(c.base_url, "https://llm.example");
}

#[test]
fn write_tools_and_normalization() {
    assert!(is_write_tool("scene.set_entity_name"));
    assert!(!is_write_tool("scene.summarize"));
    let context = hero_context(true);
    let mut args = ToolArguments::new();
    args.set("name", ArgValue::Text("Lamp".to_string()));
    let mut call = ToolCall::with_arguments("scene.set_entity_name", args);
    normalize_write_call(&mut call, &context);
    assert_eq!(call.arguments.text("entity_id").unwrap(), HERO_ID);
    let ops = ToolExecutor::compile_write(&call, &context.selection, "new").unwrap();
    assert_eq!(
        ops,
        vec![SceneOperation::SetName {
            entity_id: HERO_ID.to_string(),
            name: "Lamp".to_string()
        }]
    );
    let read = ToolCall::new("scene.summarize");
    let err = ToolExecutor::compile_write(&read, &context.selection, "new").unwrap_err();
    assert_eq!(
        err,
        CopilotError::Unsupported("write tool not implemented: scene.summarize".to_string())
    );
}

#[test]
fn parses_answer_from_chat_response() {
    let context = empty_context();
    let message = ChatMessage { tool_calls: None, content: Some("The scene has one entity.".to_string()) };
    let response =
        parse_chat_response("how many entities?", &context, Some(&message), "gpt-test", "", "new").expect("answer");
    assert_eq!(response, CopilotResponse::Answer("The scene has one entity.".to_string()));
}

#[test]
fn parses_write_proposal_from_tool_call() {
    let context = hero_context(true);
    let mut arguments = ToolArguments::new();
    arguments.set("x", ArgValue::Number(0.0f64.to_bits()));
    arguments.set("y", ArgValue::Number(1.5f64.to_bits()));
    arguments.set("z", ArgValue::Number(0.0f64.to_bits()));
    let message = ChatMessage {
        tool_calls: Some(vec![ChatToolCall {
            function: Some(ChatFunction {
                name: Some("scene.translate_selection".to_string()),
                arguments: ChatArguments::Object(arguments),
            }),
        }]),
        content: None,
    };
    let translation = "Translate selection by (0.00, 1.50, 0.00).";
    let response = parse_chat_response("move up 1.5", &context, Some(&message), "gpt-test", translation, "new")
        .expect("proposal");
    match response {
        CopilotResponse::Proposal(p) => {
            assert!(p.summary.contains("1.50"));
            assert_eq!(p.provenance.model_id, "gpt-test");
            assert_eq!(
                p.operations,
                vec![SceneOperation::Translate {
                    entity_id: HERO_ID.to_string(),
                    x: 0.0f64.to_bits(),
                    y: 1.5f64.to_bits(),
                    z: 0.0f64.to_bits(),
                }]
            );
        }
        CopilotResponse::Answer(answer) => panic!("expected proposal, got {answer}"),
    }
}

#[test]
fn chat_reply_without_message_is_a_remote_error() {
    let context = empty_context();
    let r = parse_chat_response("hi", &context, None, "gpt-test", "", "new");
    assert_eq!(r, Err(CopilotError::Remote("chat response missing message".to_string())));
}

fn hero_entities() -> Vec<EntityEntry> {
    vec![
        EntityEntry { id: HERO_ID.to_string(), name: Some("Hero".to_string()) },
        EntityEntry { id: "01J00000000000000000000002".to_string(), name: None },
    ]
}

#[test]
fn read_tools_list_inspect_and_summarize() {
    let selection = vec![HERO_ID.to_string()];
    let descriptions = vec![Some(format!("Hero ({HERO_ID}) at (0.00, 0.00, 0.00)"))];
    let list = ToolExecutor::execute_read(&ToolCall::new("scene.list_entities"), &hero_entities(), &stats(2, 1), &selection, &descriptions)
        .expect("list");
    assert_eq!(list.output, ReadOutput::Entities(hero_entities()));
    let inspect = ToolExecutor::execute_read(&ToolCall::new("scene.inspect_selection"), &hero_entities(), &stats(2, 1), &selection, &descriptions)
        .expect("inspect");
    assert_eq!(inspect.output, ReadOutput::Selection(selection.clone()));
    let summary = ToolExecutor::execute_read(&ToolCall::new("scene.summarize"), &hero_entities(), &stats(2, 1), &selection, &descriptions)
        .expect("summarize");
    let pack = ContextBuilder::build(&stats(2, 1), &selection, &descriptions, &ToolRegistry::builtins());
    assert_eq!(
        summary.output,
        ReadOutput::Summary { summary: pack.scene_summary.clone(), selection: pack.selection_summary.clone() }
    );
    let empty = ToolExecutor::execute_read(&ToolCall::new("scene.summarize"), &Vec::new(), &stats(0, 0), &Vec::new(), &Vec::new())
        .expect("summarize");
    match empty.output {
        ReadOutput::Summary { selection, .. } => assert_eq!(selection, None),
        other => panic!("unexpected {other:?}"),
    }
}

#[test]
fn read_execution_refuses_write_and_unknown_tools() {
    let r = ToolExecutor::execute_read(&ToolCall::new("scene.create_entity"), &hero_entities(), &stats(2, 1), &Vec::new(), &Vec::new());
    assert_eq!(r, Err(CopilotError::ToolProtocol(ToolProtocolError::MissingPermission(ToolPermission::SceneWrite))));
    let r = ToolExecutor::execute_read(&ToolCall::new("scene.explode"), &hero_entities(), &stats(2, 1), &Vec::new(), &Vec::new());
    assert_eq!(r, Err(CopilotError::ToolProtocol(ToolProtocolError::UnknownTool("scene.explode".to_string()))));
}
