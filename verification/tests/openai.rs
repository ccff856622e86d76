use airicode::ids::{fresh, ProviderId};
use airicode::json::{array, object, Json, JsonNumber};
use airicode::model::{
    Error, FinishReason, FreeformParser, Message, MessagePart, MessagePartContent, ProviderEvent,
    Role, ToolDefinition, ToolOutput,
};
use airicode::plugins::provider_openai::{
    accepts_event, read_line, required_string, required_u32, response_events,
    response_events_with_tools, responses_body, responses_input, LineData, OpenAiProvider,
    OpenAiProviderPlugin, ResponseStream, StreamStep,
};
use airicode::providers::openai::{openai_plugin, OpenAiConfig};
use airicode::providers::openai_compatible::{
    interpret, parse_data, request_body, take_end, take_piece, Ending, ParsedData,
};
use airicode::providers::openrouter::{openrouter_plugin, OpenRouterConfig};
use airicode::providers::sse::SseDecoder;
use airicode::testkit::{stub_provider_plugin, StubProvider, StubWorkdir};
use std::collections::BTreeMap;

fn field(name: &str, value: Json) -> (String, Json) {
    (name.to_string(), value)
}

fn number(n: u64) -> Json {
    Json::Number(JsonNumber::Unsigned(n))
}

fn text_at<'a>(value: &'a Json, path: &[&str]) -> Option<&'a str> {
    let mut current = value;
    for key in path {
        current = match key.parse::<usize>() {
            Ok(index) => &current.as_array()?[index],
            Err(_) => current.get(key)?,
        };
    }
    current.as_str()
}

fn object_schema() -> Json {
    object(vec![field("type", Json::text("object"))])
}

fn tool(
    name: &str,
    description: &str,
    schema: Json,
    freeform: Option<FreeformParser>,
) -> ToolDefinition {
    ToolDefinition {
        name: name.to_string(),
        description: description.to_string(),
        schema,
        freeform,
    }
}

fn shell() -> ToolDefinition {
    tool("shell", "run a command", object_schema(), Some(FreeformParser::Command))
}

fn message_of(role: Role, part: MessagePart) -> Message {
    let mut message = Message::text(role, "", "build");
    message.content = vec![part];
    message
}

#[test]
fn responses_input_replays_matching_native_items_and_encodes_semantics() {
    let provider_id = ProviderId(fresh());
    let other_provider = ProviderId(fresh());
    let native = object(vec![
        field("type", Json::text("message")),
        field("id", Json::text("msg_native")),
        field("role", Json::text("assistant")),
        field("content", array(vec![])),
    ]);
    let native_message = message_of(
        Role::Assistant,
        MessagePart::text("ignored").with_provider_data(provider_id, native.clone()),
    );
    let other_message = message_of(
        Role::Assistant,
        MessagePart::text("visible").with_provider_data(
            other_provider,
            object(vec![field("opaque", Json::Bool(true))]),
        ),
    );
    let reasoning = message_of(Role::Assistant, MessagePart::reasoning("do not synthesize"));
    let result = message_of(
        Role::Tool,
        MessagePart::tool_result(
            "call_1",
            "ok",
            ToolOutput::Success { content: "tool output".to_string() },
        ),
    );
    let input = responses_input(
        &[native_message, other_message, reasoning, result],
        provider_id,
        &[],
        false,
    );
    assert_eq!(input[0], native);
    assert_eq!(text_at(&input[1], &["role"]), Some("assistant"));
    assert_eq!(text_at(&input[1], &["content", "0", "text"]), Some("visible"));
    assert_eq!(text_at(&input[2], &["type"]), Some("function_call_output"));
    assert_eq!(text_at(&input[2], &["call_id"]), Some("call_1"));
    assert_eq!(text_at(&input[2], &["output"]), Some("tool output"));
    assert_eq!(input.len(), 3);
}

#[test]
fn responses_body_uses_stateless_streaming_configuration() {
    let body = responses_body(
        "gpt-test",
        &[Message::text(Role::User, "hello", "build")],
        &[ToolDefinition::new("read", "read a file", object_schema())],
        ProviderId(fresh()),
        false,
    );
    assert_eq!(body.get("stream"), Some(&Json::Bool(true)));
    assert_eq!(body.get("store"), Some(&Json::Bool(false)));
    assert_eq!(text_at(&body, &["include", "0"]), Some("reasoning.encrypted_content"));
    assert_eq!(text_at(&body, &["reasoning", "summary"]), Some("auto"));
    assert_eq!(text_at(&body, &["tools", "0", "type"]), Some("function"));
    assert_eq!(text_at(&body, &["tools", "0", "name"]), Some("read"));
    assert!(body.get("previous_response_id").is_none());
}

#[test]
fn responses_body_uses_custom_tools_only_when_freeform_is_enabled() {
    let tools = vec![
        shell(),
        tool(
            "fs_write",
            "write a file",
            object(vec![
                field("type", Json::text("object")),
                field(
                    "properties",
                    object(vec![field("path", object(vec![field("type", Json::text("string"))]))]),
                ),
            ]),
            Some(FreeformParser::Write),
        ),
        tool("apply_patch", "apply a patch", object_schema(), Some(FreeformParser::Command)),
        tool(
            "patch_hashline",
            "apply a hashline patch",
            object_schema(),
            Some(FreeformParser::Command),
        ),
        tool("patch", "apply replacements", object_schema(), None),
    ];
    let messages = [Message::text(Role::User, "hello", "build")];
    let json_body = responses_body("gpt-test", &messages, &tools, ProviderId(fresh()), false);
    for entry in json_body.get_array("tools").unwrap() {
        assert_eq!(text_at(entry, &["type"]), Some("function"));
        assert_eq!(text_at(entry, &["parameters", "type"]), Some("object"));
    }
    let freeform_body = responses_body("gpt-test", &messages, &tools, ProviderId(fresh()), true);
    let entries = freeform_body.get_array("tools").unwrap();
    for entry in &entries[..4] {
        assert_eq!(text_at(entry, &["type"]), Some("custom"));
        assert!(entry.get("parameters").is_none());
    }
    assert_eq!(text_at(&entries[4], &["type"]), Some("function"));
}

#[test]
fn responses_input_replays_text_tool_calls_as_custom_items() {
    let message = message_of(
        Role::Assistant,
        MessagePart::tool_call("call_shell", "shell", Json::text("printf hello")),
    );
    let input = responses_input(
        &[message],
        ProviderId(fresh()),
        &[shell()],
        true,
    );
    assert_eq!(text_at(&input[0], &["type"]), Some("custom_tool_call"));
    assert_eq!(text_at(&input[0], &["name"]), Some("shell"));
    assert_eq!(text_at(&input[0], &["input"]), Some("printf hello"));
    assert!(input[0].get("arguments").is_none());
}

fn item_done(index: u64, item: Json) -> Json {
    object(vec![
        field("type", Json::text("response.output_item.done")),
        field("output_index", number(index)),
        field("item", item),
    ])
}

fn output_part(event: &ProviderEvent) -> &MessagePart {
    match event {
        ProviderEvent::OutputPart { part, .. } => part,
        _ => panic!("expected finalized part"),
    }
}

#[test]
fn response_output_items_preserve_native_data_and_call_ids() {
    let provider_id = ProviderId(fresh());
    let reasoning_item = object(vec![
        field("type", Json::text("reasoning")),
        field("id", Json::text("rs_1")),
        field(
            "summary",
            array(vec![object(vec![
                field("type", Json::text("summary_text")),
                field("text", Json::text("summary")),
            ])]),
        ),
        field("encrypted_content", Json::text("encrypted")),
    ]);
    let function_item = object(vec![
        field("type", Json::text("function_call")),
        field("id", Json::text("fc_1")),
        field("call_id", Json::text("call_1")),
        field("name", Json::text("read")),
        field("arguments", Json::text("{\"path\":\"README.md\"}")),
    ]);
    let mut items = BTreeMap::new();
    let mut saw_tool_call = false;
    let reasoning_events = response_events(
        item_done(0, reasoning_item.clone()),
        provider_id,
        &mut items,
        &mut saw_tool_call,
    )
    .unwrap();
    let function_events = response_events(
        item_done(1, function_item.clone()),
        provider_id,
        &mut items,
        &mut saw_tool_call,
    )
    .unwrap();
    let part = output_part(&reasoning_events[0]);
    assert!(matches!(
        part.content.as_ref(),
        Some(MessagePartContent::Reasoning { text }) if text == "summary"
    ));
    assert_eq!(part.provider_data.as_ref().unwrap().data, reasoning_item);
    let part = output_part(&function_events[0]);
    assert!(matches!(
        part.content.as_ref(),
        Some(MessagePartContent::ToolCall { id, name, arguments })
            if id == "call_1" && name == "read" && arguments.get_str("path") == Some("README.md")
    ));
    assert_eq!(part.provider_data.as_ref().unwrap().data, function_item);
    assert!(saw_tool_call);
}

fn custom_call(input: &str) -> Json {
    object(vec![
        field("type", Json::text("custom_tool_call")),
        field("id", Json::text("ctc_1")),
        field("call_id", Json::text("call_shell")),
        field("name", Json::text("shell")),
        field("input", Json::text(input)),
    ])
}

#[test]
fn custom_tool_streaming_events_accumulate_raw_input() {
    let provider_id = ProviderId(fresh());
    let mut items = BTreeMap::new();
    let mut saw_tool_call = false;
    response_events(
        object(vec![
            field("type", Json::text("response.output_item.added")),
            field("output_index", number(0)),
            field("item", custom_call("")),
        ]),
        provider_id,
        &mut items,
        &mut saw_tool_call,
    )
    .unwrap();
    let delta = response_events(
        object(vec![
            field("type", Json::text("response.custom_tool_call_input.delta")),
            field("output_index", number(0)),
            field("delta", Json::text("printf ")),
        ]),
        provider_id,
        &mut items,
        &mut saw_tool_call,
    )
    .unwrap();
    assert!(matches!(
        delta.as_slice(),
        [ProviderEvent::CustomToolCallInputDelta { id: Some(id), name: Some(name), input, .. }]
            if id == "call_shell" && name == "shell" && input == "printf "
    ));
    let done_event = object(vec![
        field("type", Json::text("response.custom_tool_call_input.done")),
        field("output_index", number(0)),
        field("input", Json::text("printf hello")),
    ]);
    assert!(accepts_event(&done_event, &items));
    let done = response_events(done_event, provider_id, &mut items, &mut saw_tool_call).unwrap();
    assert!(matches!(
        done.as_slice(),
        [ProviderEvent::CustomToolCallInputDone { index: 0, input }] if input == "printf hello"
    ));
    let final_events = response_events(
        item_done(0, custom_call("printf hello")),
        provider_id,
        &mut items,
        &mut saw_tool_call,
    )
    .unwrap();
    let part = output_part(&final_events[0]);
    assert!(matches!(
        part.content.as_ref(),
        Some(MessagePartContent::ToolCall { id, name, arguments })
            if id == "call_shell" && name == "shell" && arguments == &Json::text("printf hello")
    ));
    assert!(saw_tool_call);
}

#[test]
fn custom_tool_calls_store_parsed_canonical_arguments() {
    let mut items = BTreeMap::new();
    let mut saw_tool_call = false;
    let events = response_events_with_tools(
        item_done(
            0,
            object(vec![
                field("type", Json::text("custom_tool_call")),
                field("call_id", Json::text("call_shell")),
                field("name", Json::text("shell")),
                field("input", Json::text("printf hello")),
            ]),
        ),
        ProviderId(fresh()),
        &[shell()],
        &mut items,
        &mut saw_tool_call,
    )
    .unwrap();
    let part = output_part(&events[0]);
    assert!(matches!(
        part.content.as_ref(),
        Some(MessagePartContent::ToolCall { arguments, .. })
            if arguments == &object(vec![field("command", Json::text("printf hello"))])
    ));
    assert_eq!(
        part.provider_data.as_ref().unwrap().data.get_str("input"),
        Some("printf hello")
    );
}

#[test]
fn encrypted_only_and_unknown_items_become_provider_only_parts() {
    for item in [
        object(vec![
            field("type", Json::text("reasoning")),
            field("encrypted_content", Json::text("opaque")),
        ]),
        object(vec![
            field("type", Json::text("unknown_item")),
            field("value", number(1)),
        ]),
    ] {
        let mut items = BTreeMap::new();
        let mut saw_tool_call = false;
        let events = response_events(
            item_done(0, item),
            ProviderId(fresh()),
            &mut items,
            &mut saw_tool_call,
        )
        .unwrap();
        let part = output_part(&events[0]);
        assert!(part.content.is_none());
        assert!(part.provider_data.is_some());
    }
}

#[test]
fn missing_fields_of_events_are_named() {
    let event = object(vec![field("index", number(4294967296)), field("text", number(1))]);
    assert!(required_u32(&event, "index").is_err());
    assert!(required_string(&event, "text").unwrap_err().contains("text"));
    assert_eq!(required_u32(&object(vec![field("index", number(3))]), "index"), Ok(3));
}

#[test]
fn lines_of_a_stream_hold_events() {
    assert!(matches!(read_line(b"data: {\"a\":1}\r\n"), LineData::Event(t) if t == "{\"a\":1}"));
    assert!(matches!(read_line(b"data: [DONE]\n"), LineData::Done));
    assert!(matches!(read_line(b": comment\n"), LineData::Nothing));
}

#[test]
fn streams_of_responses_end_with_done() {
    let mut stream = ResponseStream::new();
    stream.push_chunk(b"data: {\"type\":\"response.output_text.delta\",\"delta\":\"hi\"}\n\nda");
    stream.push_chunk(b"ta: [DONE]\n");
    let mut texts = Vec::new();
    let mut ended = false;
    for _ in 0..8 {
        match stream.step(ProviderId(fresh()), &[]) {
            Ok(StreamStep::Events(events)) => {
                for event in events {
                    if let ProviderEvent::TextDelta { text } = event {
                        texts.push(text);
                    }
                }
            }
            Ok(StreamStep::Ended) => {
                ended = true;
                break;
            }
            Ok(_) => {}
            Err(_) => panic!("the stream can be read"),
        }
    }
    assert_eq!(texts, vec!["hi"]);
    assert!(ended);
}

#[test]
fn providers_are_configured_from_the_environment() {
    let plugin = OpenAiProviderPlugin::new();
    assert_eq!(plugin.provider_id(), OpenAiProviderPlugin::new().provider_id());
    assert!(plugin.configure(None, None, false).is_err());
    let provider = plugin.configure(None, Some("key".to_string()), true).unwrap();
    assert!(provider.freeform);
    assert_eq!(provider.api_key, "key");
    let moved = OpenAiProvider::new(ProviderId(1), "k".to_string()).with_base_url("http://a/b//");
    assert_eq!(moved.endpoint("/responses"), "http://a/b/responses");
}

fn header<'a>(headers: &'a [(String, String)], name: &str) -> &'a str {
    match headers.iter().find(|header| header.0 == name) {
        Some(header) => &header.1,
        None => panic!("no such header"),
    }
}

#[test]
fn applies_openai_account_headers() {
    let provider = openai_plugin(OpenAiConfig {
        api_key: "secret".to_string(),
        base_url: None,
        organization: Some("org-123".to_string()),
        project: Some("proj-456".to_string()),
    });
    let headers = provider.authenticated();
    assert_eq!(header(&headers, "authorization"), "Bearer secret");
    assert_eq!(header(&headers, "openai-organization"), "org-123");
    assert_eq!(header(&headers, "openai-project"), "proj-456");
    assert_eq!(provider.models_url(), "https://api.openai.com/v1/models");
}

#[test]
fn applies_openrouter_attribution_headers() {
    let provider = openrouter_plugin(OpenRouterConfig {
        api_key: "secret".to_string(),
        base_url: None,
        site_url: Some("https://example.com".to_string()),
        app_name: Some("Example".to_string()),
    });
    let headers = provider.authenticated();
    assert_eq!(header(&headers, "authorization"), "Bearer secret");
    assert_eq!(header(&headers, "http-referer"), "https://example.com");
    assert_eq!(header(&headers, "x-title"), "Example");
    assert_eq!(
        provider.completions_url(),
        "https://openrouter.ai/api/v1/chat/completions"
    );
}

#[test]
fn no_key_means_no_authorization() {
    let mut config = OpenRouterConfig::new(String::new());
    config.base_url = Some("http://local/".to_string());
    let provider = openrouter_plugin(config);
    assert!(provider.authenticated().is_empty());
    assert_eq!(provider.models_url(), "http://local/models");
    assert_eq!(OpenAiConfig::new("k".to_string()).organization, None);
}

#[test]
fn decodes_fragmented_sse_and_done() {
    let mut decoder = SseDecoder::default();
    assert!(decoder.push(b"data: {\"cho").unwrap().is_empty());
    let frames = decoder.push(b"ices\":[]}\r\n\r\ndata: [DONE]\n\n").unwrap();
    assert_eq!(frames, vec![r#"{"choices":[]}"#, "[DONE]"]);
    assert!(matches!(parse_data(&frames[1]).unwrap(), ParsedData::Done));
}

#[test]
fn events_do_not_depend_on_how_they_arrive() {
    let whole = b"data: a\ndata:b\n\n: note\n\ndata: c\r\n\r\ndata: d";
    let mut at_once = SseDecoder::default();
    let mut expected = at_once.push(whole).unwrap();
    expected.extend(at_once.finish().unwrap());
    assert_eq!(expected, vec!["a\nb", "c", "d"]);
    let mut bytewise = SseDecoder::default();
    let mut found = Vec::new();
    for byte in whole.iter() {
        found.extend(bytewise.push(&[*byte]).unwrap());
    }
    found.extend(bytewise.finish().unwrap());
    assert_eq!(found, expected);
}

#[test]
fn events_must_be_text() {
    let mut decoder = SseDecoder::default();
    assert!(matches!(decoder.push(b"data: \xff\n\n"), Err(Error::Provider(_))));
}

#[test]
fn parses_text_reasoning_tool_usage_and_finish_events() {
    let data = r#"{
            "choices":[{"delta":{
                "content":"hi",
                "reasoning_content":"think",
                "tool_calls":[{"index":0,"id":"call_1","function":{"name":"read","arguments":"{\\\"pa"}}]
            },"finish_reason":"tool_calls"}],
            "usage":{"prompt_tokens":2,"completion_tokens":3,"total_tokens":5}
        }"#;
    let events = match parse_data(data).unwrap() {
        ParsedData::Events(events) => events,
        ParsedData::Done => panic!("expected events"),
    };
    assert!(matches!(events[0], ProviderEvent::Usage { usage } if usage.total_tokens == 5));
    assert!(matches!(&events[1], ProviderEvent::TextDelta { text } if text == "hi"));
    assert!(matches!(&events[2], ProviderEvent::ReasoningDelta { text } if text == "think"));
    assert!(matches!(events[3], ProviderEvent::ToolCallDelta { .. }));
    assert!(matches!(
        events[4],
        ProviderEvent::Finished { reason: FinishReason::ToolCalls }
    ));
}

#[test]
fn errors_of_a_chunk_are_told() {
    match parse_data(r#"{"error":{"message":"overloaded"}}"#) {
        Err(Error::Provider(message)) => assert_eq!(message, "overloaded"),
        _ => panic!("the chunk reports an error"),
    }
    match parse_data(r#"{"error":{"code":5}}"#) {
        Err(Error::Provider(message)) => assert_eq!(message, "{\"code\":5}"),
        _ => panic!("the chunk reports an error"),
    }
    assert!(parse_data("no json").is_err());
    match interpret("x", Err("bad".to_string())) {
        Err(Error::Provider(message)) => assert_eq!(message, "invalid chat completion event: bad"),
        _ => panic!("the datum cannot be read"),
    }
}

#[test]
fn large_indexes_are_cut_to_their_low_bits() {
    let chunk = object(vec![field(
        "choices",
        array(vec![object(vec![field(
            "delta",
            object(vec![field(
                "tool_calls",
                array(vec![object(vec![field("index", number(4294967299))])]),
            )]),
        )])]),
    )]);
    match interpret("x", Ok(chunk)) {
        Ok(ParsedData::Events(events)) => {
            assert!(matches!(events[0], ProviderEvent::ToolCallDelta { index: 3, .. }));
        }
        _ => panic!("the chunk holds a call"),
    }
}

#[test]
fn nothing_is_delivered_behind_the_end() {
    let mut decoder = SseDecoder::default();
    let delivery = take_piece(
        &mut decoder,
        b"data: {\"choices\":[{\"delta\":{\"content\":\"a\"}}]}\n\ndata: [DONE]\n\ndata: x\n\n",
    );
    assert_eq!(delivery.events.len(), 1);
    assert!(matches!(delivery.ending, Some(Ending::Done)));
    let rest = take_end(&mut decoder);
    assert!(rest.events.is_empty());
    assert!(rest.ending.is_none());
    let broken = take_piece(&mut decoder, b"data: \xff\n\n");
    assert!(matches!(broken.ending, Some(Ending::Failed(_))));
}

#[test]
fn requests_tell_context_messages_and_tools() {
    let assistant = message_of(
        Role::Assistant,
        MessagePart::tool_call("call_1", "read", object(vec![field("path", Json::text("a"))])),
    );
    let result = message_of(
        Role::Tool,
        MessagePart::tool_result(
            "call_1",
            "read",
            ToolOutput::Failure { content: "missing".to_string() },
        ),
    );
    let body = request_body(
        "m",
        &["one".to_string(), "two".to_string()],
        &[Message::text(Role::User, "hi", "build"), assistant, result],
        &[tool("read", "read a file", object_schema(), None)],
    );
    assert_eq!(text_at(&body, &["messages", "0", "content"]), Some("one\n\ntwo"));
    assert_eq!(text_at(&body, &["messages", "1", "content"]), Some("hi"));
    assert_eq!(
        text_at(&body, &["messages", "2", "tool_calls", "0", "function", "arguments"]),
        Some("{\"path\":\"a\"}")
    );
    assert_eq!(text_at(&body, &["messages", "3", "tool_call_id"]), Some("call_1"));
    assert_eq!(text_at(&body, &["messages", "3", "content"]), Some("missing"));
    assert_eq!(text_at(&body, &["tools", "0", "function", "name"]), Some("read"));
    let bare = request_body("m", &[], &[], &[]);
    assert!(bare.get("tools").is_none());
    assert_eq!(bare.get_array("messages").unwrap().len(), 0);
}

#[test]
fn models_without_a_name_go_by_their_id() {
    let provider = openai_plugin(OpenAiConfig::new("k".to_string()));
    let body = object(vec![field(
        "data",
        array(vec![
            object(vec![field("id", Json::text("a")), field("name", Json::text("A"))]),
            object(vec![field("name", Json::text("nameless"))]),
            object(vec![field("id", Json::text("b"))]),
        ]),
    )]);
    let models = provider.read_models(&body).unwrap();
    assert_eq!(models.len(), 2);
    assert_eq!(models[0].display_name, "A");
    assert_eq!(models[1].display_name, "b");
    assert!(provider.read_models(&object(vec![])).is_err());
}

#[test]
fn failed_answers_show_their_status() {
    let provider = openai_plugin(OpenAiConfig::new("k".to_string()));
    assert!(matches!(
        provider.status_error("500 Internal Server Error", "  "),
        Error::Provider(m) if m == "HTTP 500 Internal Server Error"
    ));
    assert!(matches!(
        provider.status_error("401 Unauthorized", " no key\n"),
        Error::Provider(m) if m == "HTTP 401 Unauthorized: no key"
    ));
}

#[test]
fn stand_ins_answer_as_prepared() {
    let plugin = stub_provider_plugin(StubProvider::responding(
        "p".to_string(),
        "hello".to_string(),
    ));
    assert_eq!(plugin.id, "test-provider-p");
    assert_eq!(plugin.provider.answer().unwrap().len(), 2);
    assert_eq!(plugin.provider.get_models()[0].id, "test");
    let blocked = StubProvider::blocked("q".to_string());
    assert!(blocked.gated);
    assert!(blocked.answer().is_err());
    let workdir = StubWorkdir::new("/tmp".to_string());
    assert_eq!(workdir.root(), "/tmp");
    assert!(matches!(workdir.refusal(), Error::Workdir(m) if m == "not configured"));
}

#[test]
fn answers_with_a_tool_call_finish_for_it() {
    let mut items = BTreeMap::new();
    let mut saw_tool_call = false;
    let completed = || {
        object(vec![
            field("type", Json::text("response.completed")),
            field("response", object(vec![])),
        ])
    };
    let plain =
        response_events(completed(), ProviderId(1), &mut items, &mut saw_tool_call).unwrap();
    assert!(plain.iter().any(|event| matches!(
        event,
        ProviderEvent::Finished { reason: FinishReason::Stop }
    )));
    let call = object(vec![
        field("type", Json::text("function_call")),
        field("call_id", Json::text("c")),
        field("name", Json::text("read")),
        field("arguments", Json::text("{}")),
    ]);
    response_events(item_done(0, call), ProviderId(1), &mut items, &mut saw_tool_call).unwrap();
    let after =
        response_events(completed(), ProviderId(1), &mut items, &mut saw_tool_call).unwrap();
    assert!(after.iter().any(|event| matches!(
        event,
        ProviderEvent::Finished { reason: FinishReason::ToolCalls }
    )));
}

#[test]
fn the_provider_has_a_lasting_identity() {
    assert_eq!(
        OpenAiProviderPlugin::new().provider_id(),
        ProviderId(0xb56ab4de0108536992c31a1e19d47c7d)
    );
}
