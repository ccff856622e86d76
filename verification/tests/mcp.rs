use airicode::json::{array, object, Json, JsonNumber};
use airicode::model::{Error, ToolOutput};
use airicode::plugins::mcp::{
    call_params, identifier, initialize_params, mcp_plugin, namespaced_name, notification,
    parse_tool_result, push_diagnostic, read_bounded_line, request_result, write_message,
    BoundedLine, Incoming, LineProgress, McpClient, McpConfig, McpToolDefinition, Waited,
};
use airicode::plugins::mcp_frame::{frame, read_frame, FrameError, FrameStep};
use std::collections::VecDeque;

fn field(name: &str, value: Json) -> (String, Json) {
    (name.to_string(), value)
}

fn number(n: u64) -> Json {
    Json::Number(JsonNumber::Unsigned(n))
}

fn frame_of(bytes: &[u8], max: usize) -> Vec<u8> {
    match read_frame(bytes, true, max) {
        FrameStep::Frame(body, _) => body,
        _ => panic!("no frame"),
    }
}

fn failure_of(bytes: &[u8], max: usize) -> FrameError {
    match read_frame(bytes, true, max) {
        FrameStep::Failed(error) => error,
        _ => panic!("no failure"),
    }
}

#[test]
fn parses_content_length_and_line_frames() {
    assert_eq!(
        frame_of(b"Content-Length: 13\r\n\r\n{\"jsonrpc\":1}", 100),
        b"{\"jsonrpc\":1}"
    );
    assert_eq!(
        frame_of(b"{\"jsonrpc\":\"2.0\"}\n", 100),
        b"{\"jsonrpc\":\"2.0\"}"
    );
}

#[test]
fn rejects_oversized_and_malformed_frames() {
    assert!(matches!(
        read_frame(b"Content-Length: 101\r\n\r\n", true, 100),
        FrameStep::Failed(_)
    ));
    assert!(matches!(read_frame(b"No colon\r\n\r\n", true, 100), FrameStep::Failed(_)));
    assert!(matches!(
        read_frame(b"X: 123456\r\nY: 123456\r\n\r\n", true, 16),
        FrameStep::Failed(_)
    ));
}

#[test]
fn frames_wait_for_their_bytes_and_end_cleanly() {
    assert!(matches!(read_frame(b"Content-Length: 2\r\n\r\n{", false, 100), FrameStep::More));
    assert!(matches!(read_frame(b"", true, 100), FrameStep::End));
    assert!(matches!(read_frame(b"", false, 100), FrameStep::More));
    assert_eq!(failure_of(b"Content-Length: 2\r\n\r\n{", 100), FrameError::EndInBody);
    assert_eq!(failure_of(b"Content-Length: 2\r\n", 100), FrameError::EndInHeaders);
    assert_eq!(failure_of(b"X: y\r\n\r\n", 100), FrameError::MissingLength);
    assert_eq!(
        failure_of(b"Content-Length: 2\r\nContent-Length: 2\r\n\r\n{}", 100),
        FrameError::DuplicateLength
    );
    assert_eq!(failure_of(b"Content-Length: two\r\n\r\n{}", 100), FrameError::InvalidLength);
    assert_eq!(failure_of(b"\xff\xfe\n", 100), FrameError::NotText);
}

#[test]
fn a_framed_message_is_read_back_with_its_length() {
    let bytes = frame(b"{\"a\":1}");
    assert_eq!(bytes, b"Content-Length: 7\r\n\r\n{\"a\":1}");
    match read_frame(&bytes, false, 100) {
        FrameStep::Frame(body, used) => {
            assert_eq!(body, b"{\"a\":1}");
            assert_eq!(used, bytes.len());
        }
        _ => panic!("no frame"),
    }
}

#[test]
fn namespaces_tool_names() {
    assert_eq!(
        namespaced_name("docs server", "web/search"),
        "mcp__docs_server__web_search"
    );
}

#[test]
fn identifiers_keep_only_plain_characters() {
    assert_eq!(identifier("a-b_c9"), "a-b_c9");
    assert_eq!(identifier("a.b c"), "a_b_c");
}

#[test]
fn bounds_stderr_lines() {
    let input = b"abcdefghij\nnext\n";
    let mut line = BoundedLine::new();
    let used = match read_bounded_line(&mut line, input, 4) {
        LineProgress::Line(text, truncated, used) => {
            assert_eq!(text, "abcd");
            assert!(truncated);
            used
        }
        _ => panic!("no line"),
    };
    let mut line = BoundedLine::new();
    match read_bounded_line(&mut line, &input[used..], 4) {
        LineProgress::Line(text, truncated, _) => {
            assert_eq!(text, "next");
            assert!(!truncated);
        }
        _ => panic!("no line"),
    }
}

#[test]
fn lines_are_put_together_from_pieces() {
    let mut line = BoundedLine::new();
    assert!(matches!(read_bounded_line(&mut line, b"ab", 8), LineProgress::More(2)));
    match read_bounded_line(&mut line, b"c\nrest", 8) {
        LineProgress::Line(text, truncated, used) => {
            assert_eq!(text, "abc");
            assert!(!truncated);
            assert_eq!(used, 2);
        }
        _ => panic!("no line"),
    }
}

#[test]
fn parses_text_and_structured_tool_content() {
    let result = object(vec![
        field(
            "content",
            array(vec![
                object(vec![
                    field("type", Json::text("text")),
                    field("text", Json::text("hello")),
                ]),
                object(vec![
                    field("type", Json::text("image")),
                    field("data", Json::text("x")),
                ]),
            ]),
        ),
        field("isError", Json::Bool(true)),
    ]);
    match parse_tool_result(&result).unwrap() {
        ToolOutput::Failure { content } => {
            assert!(content.starts_with("hello\n"));
            assert_eq!(content, "hello\n{\"data\":\"x\",\"type\":\"image\"}");
        }
        _ => panic!("the tool reported an error"),
    }
}

#[test]
fn tool_results_need_content() {
    assert!(parse_tool_result(&object(vec![])).is_err());
}

#[test]
fn diagnostics_forget_the_oldest_line() {
    let mut lines: VecDeque<String> = VecDeque::new();
    push_diagnostic(&mut lines, 2, "one".to_string());
    push_diagnostic(&mut lines, 2, "two".to_string());
    push_diagnostic(&mut lines, 2, "three".to_string());
    assert_eq!(lines.len(), 2);
    assert_eq!(lines[0], "two");
    assert_eq!(lines[1], "three");
}

fn client() -> McpClient {
    let config = McpConfig::new("docs".to_string(), "server".to_string());
    match mcp_plugin(config).begin() {
        Ok(client) => client,
        Err(_) => panic!("the configuration is valid"),
    }
}

#[test]
fn replies_settle_the_request_that_they_answer() {
    let mut client = client();
    client.begin_initialize().unwrap();
    client.end_initialize(true);
    client.require_ready().unwrap();
    let (first, message) = client.start_request("tools/list", object(vec![])).unwrap();
    assert_eq!(message.get_str("method"), Some("tools/list"));
    assert_eq!(message.get_u64("id"), Some(first));
    let reply = object(vec![
        field("jsonrpc", Json::text("2.0")),
        field("id", number(first)),
        field("result", Json::text("done")),
    ]);
    match client.receive_value(Ok(reply)) {
        Incoming::Reply(id, Ok(value)) => {
            assert_eq!(id, first);
            assert_eq!(value, Json::text("done"));
        }
        _ => panic!("the request was answered"),
    }
    let text = format!("{{\"jsonrpc\":\"2.0\",\"id\":{first},\"result\":1}}");
    assert!(matches!(client.receive(text.as_bytes()), Incoming::Nothing));
}

#[test]
fn raw_replies_are_read_as_json() {
    let mut client = client();
    client.begin_initialize().unwrap();
    client.end_initialize(true);
    let (id, _) = client.start_request("tools/call", object(vec![])).unwrap();
    let text = format!("{{\"jsonrpc\":\"2.0\",\"id\":{id},\"error\":{{\"code\":1,\"message\":\"no\"}}}}");
    match client.receive(text.as_bytes()) {
        Incoming::Reply(answered, Err(_)) => assert_eq!(answered, id),
        _ => panic!("the request failed"),
    }
}

#[test]
fn requests_of_the_server_are_refused() {
    let mut client = client();
    let request = object(vec![
        field("jsonrpc", Json::text("2.0")),
        field("id", number(7)),
        field("method", Json::text("roots/list")),
    ]);
    match client.receive_value(Ok(request)) {
        Incoming::Answer(answer) => {
            assert_eq!(answer.get_u64("id"), Some(7));
            assert!(answer.get("error").is_some());
        }
        _ => panic!("a request is answered"),
    }
}

#[test]
fn requests_that_wait_in_vain_fail() {
    assert!(matches!(request_result("x", Waited::TimedOut), Err(_)));
    assert!(matches!(request_result("x", Waited::Disconnected), Err(_)));
    assert!(matches!(request_result("x", Waited::Reply(Ok(Json::Null))), Ok(Json::Null)));
    assert!(matches!(
        request_result("x", Waited::Reply(Err("bad".to_string()))),
        Err(Error::Plugin(m)) if m == "bad"
    ));
}

#[test]
fn closing_fails_what_is_pending_once() {
    let mut client = client();
    client.begin_initialize().unwrap();
    client.end_initialize(true);
    let (id, _) = client.start_request("tools/list", object(vec![])).unwrap();
    assert_eq!(client.fail_pending(), vec![id]);
    assert!(client.close());
    assert!(!client.close());
    assert!(client.require_ready().is_err());
}

fn remote(name: &str) -> McpToolDefinition {
    McpToolDefinition {
        name: name.to_string(),
        description: "a tool".to_string(),
        input_schema: object(vec![]),
    }
}

#[test]
fn tools_are_exposed_under_their_server() {
    let mut client = client();
    assert!(client.tool_adapters(vec![]).is_err());
    client.begin_initialize().unwrap();
    client.end_initialize(true);
    let adapters = client.tool_adapters(vec![remote("search"), remote("fetch")]).unwrap();
    assert_eq!(adapters.len(), 2);
    assert_eq!(adapters[0].definition().name, "mcp__docs__search");
    assert_eq!(adapters[1].exposed_name, "mcp__docs__fetch");
    assert!(client.tool_adapters(vec![remote("a b"), remote("a_b")]).is_err());
}

#[test]
fn messages_are_spelled_and_bounded() {
    let message = notification("notifications/initialized", object(vec![]));
    assert_eq!(message.get_str("jsonrpc"), Some("2.0"));
    let bytes = write_message(&message, 1000).unwrap();
    assert!(bytes.starts_with(b"Content-Length: "));
    assert!(write_message(&message, 4).is_err());
}

#[test]
fn parameters_name_what_they_are_for() {
    let params = initialize_params("agent", "1.0");
    assert_eq!(params.get_str("protocolVersion"), Some("2025-03-26"));
    let call = call_params("search", Json::text("q"));
    assert_eq!(call.get_str("name"), Some("search"));
    assert_eq!(call.get_str("arguments"), Some("q"));
}

#[test]
fn frames_do_not_depend_on_pieces() {
    let bytes = b"Content-Length: 2\r\n\r\n{}{\"more\":1}\n";
    for end in 0..bytes.len() {
        match read_frame(&bytes[..end], false, 100) {
            FrameStep::More => assert!(end < 23),
            FrameStep::Frame(body, used) => {
                assert_eq!(body, b"{}");
                assert_eq!(used, 23);
            }
            _ => panic!("the bytes begin with a frame"),
        }
    }
}

#[test]
fn a_connected_plugin_gives_no_other_client() {
    let mut config = McpConfig::new("docs".to_string(), "server".to_string());
    config.env = vec![
        ("TOKEN".to_string(), "a".to_string()),
        ("HOME".to_string(), "/".to_string()),
        ("TOKEN".to_string(), "b".to_string()),
    ];
    assert_eq!(
        config.environment(),
        vec![("HOME".to_string(), "/".to_string()), ("TOKEN".to_string(), "b".to_string())]
    );
    let mut plugin = mcp_plugin(config);
    assert!(plugin.begin().is_ok());
    assert!(plugin.begin().is_ok());
    plugin.connected();
    match plugin.begin() {
        Err(Error::Plugin(message)) => assert_eq!(message, "MCP plugin is already initialized"),
        _ => panic!("the plugin is connected"),
    }
}

#[test]
fn failures_to_read_the_output_are_noted() {
    let mut client = client();
    client.note_output_error("broken pipe");
    client.note_framing_error(FrameError::MissingLength);
    assert_eq!(client.diagnostics[0], "stdout framing error: broken pipe");
    assert_eq!(client.diagnostics[1], "stdout framing error: missing Content-Length");
}
