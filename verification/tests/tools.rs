use airicode::ids::fresh;
use airicode::json::{array, object, Json, JsonNumber};
use airicode::model::{CommandOutput, Error, NoteContent, ToolInput, ToolOutput};
use airicode::plugins::file_tools::Change;
use airicode::plugins::tool_delete::ToolDelete;
use airicode::plugins::tool_find::{ToolFind, ToolFindPlugin};
use airicode::plugins::tool_find_file::{
    matches_query, parse_input, Entry, EntryKind, FindFileInput, FindFileQuery, ToolFindFile,
    ToolFindFilePlugin, Walk,
};
use airicode::plugins::tool_fs_delete::ToolFsDelete;
use airicode::plugins::tool_fs_rename::ToolFsRename;
use airicode::plugins::tool_grep::{
    parse_matches, ContextLine, FileLines, GrepInput, SearchResult, ToolGrep,
};
use airicode::plugins::tool_patch::{occurrences, ToolPatch};
use airicode::plugins::tool_patch_apply_patch::{
    apply_hunk, parse_apply_patch, Hunk, PatchFiles, PatchOperation, ToolPatchApplyPatch,
};
use airicode::plugins::tool_patch_hashline::{
    operation_to_domain, resolve_anchor, snapshot_file, surrounding_context, unified_diff,
    AnchorError, FileRead, PatchHashlineOperation, ToolPatchHashline,
};
use airicode::plugins::tool_question::{Asked, ToolQuestion};
use airicode::plugins::tool_read::{ReadFailure, ReadInput, ToolRead};
use airicode::plugins::tool_rename::ToolRename;
use airicode::plugins::tool_shell::{ToolShell, ToolShellPlugin};
use airicode::plugins::tool_todo::{TodoUpdate, ToolTodo};
use airicode::plugins::tool_webfetch::{decide, Fetch, ToolWebfetch};
use airicode::plugins::tool_write::{parse_write_freeform, ToolWrite, WriteInput};
use airicode::utils::hashline;
use airicode::utils::note::{noted, output_note};

fn field(name: &str, value: Json) -> (String, Json) {
    (name.to_string(), value)
}

fn success(content: &str) -> ToolOutput {
    ToolOutput::Success { content: content.to_string() }
}

fn ended(status: i32, stdout: &str) -> CommandOutput {
    CommandOutput {
        status: Some(status),
        stdout: stdout.to_string(),
        stderr: String::new(),
        truncated: false,
    }
}

#[test]
fn query_parser_rejects_multiple_search_methods() {
    let input = object(vec![field(
        "query",
        object(vec![
            field("kind", Json::text("by_filename_keyword")),
            field("keyword", Json::text("message")),
            field("filename", Json::text("message.rs")),
        ]),
    )]);
    let parsed = Ok(FindFileInput {
        query: FindFileQuery::ByFilenameKeyword { keyword: "message".to_string() },
        path: None,
        max_results: None,
    });
    match parse_input(&input, parsed) {
        Err(error) => assert!(error.contains("cannot contain field `filename`")),
        Ok(_) => panic!("query methods must be mutually exclusive"),
    }
}

#[test]
fn files_are_found_by_keyword_name_and_pattern() {
    let keyword = FindFileQuery::ByFilenameKeyword { keyword: "MAIN".to_string() };
    assert!(matches_query("src/main.rs", ".", &keyword));
    assert!(!matches_query("main/lib.rs", ".", &keyword));
    let exact = FindFileQuery::ByFilenameExact { filename: "main.rs".to_string() };
    assert!(matches_query("src/main.rs", ".", &exact));
    assert!(!matches_query("src/xmain.rs", ".", &exact));
    let glob = FindFileQuery::ByGlobPattern { pattern: "**/*.rs".to_string() };
    assert!(matches_query("src/main.rs", ".", &glob));
    let mut walk = Walk::new(".");
    let root = walk.next().unwrap();
    assert_eq!(root, ".");
    walk.listed(&[
        Entry { path: "b.rs".to_string(), kind: EntryKind::File },
        Entry { path: "src".to_string(), kind: EntryKind::Directory },
    ]);
    assert_eq!(walk.next(), Some("src".to_string()));
    walk.listed(&[Entry { path: "src/a.rs".to_string(), kind: EntryKind::File }]);
    assert_eq!(walk.next(), None);
    let tool = ToolFindFile::new();
    let input = FindFileInput { query: glob, path: None, max_results: Some(1) };
    let (output, _) = tool.show(&input, &walk.files);
    match output {
        ToolOutput::Success { content } => assert!(content.contains(".rs")),
        _ => panic!("files were found"),
    }
}

#[test]
fn find_runs_fd_and_counts_what_it_shows() {
    let tool = ToolFind::new().with_limits(1, 1000);
    let request = match tool.request(&object(vec![field("name", Json::text("a.rs"))])) {
        Ok(request) => request,
        Err(_) => panic!("the name is given"),
    };
    let command = match tool.command(&request) {
        Ok(command) => command,
        Err(_) => panic!("the request is valid"),
    };
    assert_eq!(command.program, "fd");
    let shown = tool.show(&request, &ended(0, "x/a.rs\ny/a.rs\n"));
    match shown {
        ToolOutput::Success { content } => {
            assert!(content.contains("x/a.rs"));
            assert!(!content.contains("y/a.rs"));
        }
        _ => panic!("files were found"),
    }
    assert!(tool.request(&object(vec![])).is_err());
}

#[test]
fn patch_requires_path_and_edits() {
    let schema = ToolPatch::new().definition().schema;
    assert_eq!(
        schema.get("required"),
        Some(&array(vec![Json::text("path"), Json::text("edits")]))
    );
}

fn edit(old: &str, new: &str) -> Json {
    object(vec![field("oldText", Json::text(old)), field("newText", Json::text(new))])
}

fn patch_input(edits: Vec<Json>) -> Json {
    object(vec![field("path", Json::text("a.txt")), field("edits", array(edits))])
}

#[test]
fn patches_replace_each_text_once() {
    let tool = ToolPatch::new();
    let input = patch_input(vec![edit("two", "2"), edit("one", "1")]);
    assert_eq!(tool.target(&input).unwrap(), "a.txt");
    assert_eq!(tool.apply(&input, b"one two".to_vec()).unwrap(), "1 2");
    assert!(tool.apply(&patch_input(vec![edit("o", "x")]), b"one two".to_vec()).is_err());
    assert!(tool.apply(&patch_input(vec![edit("no", "x")]), b"one two".to_vec()).is_err());
    let overlapping = patch_input(vec![edit("one t", "x"), edit("two", "y")]);
    assert!(tool.apply(&overlapping, b"one two".to_vec()).is_err());
    assert!(tool.apply(&input, vec![0xff]).is_err());
    assert!(tool.target(&object(vec![])).is_err());
    assert_eq!(occurrences("aXbXa", "X"), vec![1, 3]);
    assert_eq!(occurrences("\u{e9}X\u{1f600}X", "X"), vec![2, 7]);
    assert_eq!(occurrences("aaa", "aa"), vec![0, 1]);
    let accented = patch_input(vec![edit("X", "Y")]);
    let patched = tool.apply(&accented, "\u{e9}X\u{e8}".as_bytes().to_vec());
    assert!(matches!(patched, Ok(content) if content == "\u{e9}Y\u{e8}"));
}

#[test]
fn parser_supports_file_lifecycle_operations() {
    assert!(parse_apply_patch(
        "*** Begin Patch\n*** Add File: new.txt\n+new\n*** Update File: old.txt\n*** Move to: moved.txt\n@@\n-old\n+new\n*** Delete File: deleted.txt\n*** End Patch"
    )
    .is_ok());
}

#[test]
fn patch_operations_change_files_together() {
    let operations = match parse_apply_patch(
        "*** Begin Patch\n*** Add File: new.txt\n+new\n*** Update File: old.txt\n*** Move to: moved.txt\n@@\n-old\n+new\n*** Delete File: deleted.txt\n*** End Patch",
    ) {
        Ok(operations) => operations,
        Err(_) => panic!("the patch can be read"),
    };
    assert_eq!(operations.len(), 3);
    assert!(matches!(&operations[0], PatchOperation::Add { path, .. } if path == "new.txt"));
    let tool = ToolPatchApplyPatch::new();
    let mut files = PatchFiles::new();
    for operation in &operations {
        loop {
            match files.advance(operation, tool.max_bytes).unwrap() {
                None => break,
                Some(path) => {
                    let bytes = match path.as_str() {
                        "old.txt" => Some(b"old\n".to_vec()),
                        "deleted.txt" => Some(b"x".to_vec()),
                        _ => None,
                    };
                    files.load_file(&path, bytes, tool.max_bytes).unwrap();
                }
            }
        }
    }
    let writes = files.writes();
    assert!(writes.contains(&("moved.txt".to_string(), "new\n".to_string())));
    assert_eq!(writes.len(), 2);
    let removals = files.removals();
    assert!(removals.contains(&"old.txt".to_string()));
    assert!(removals.contains(&"deleted.txt".to_string()));
    assert!(parse_apply_patch("nothing").is_err());
}

#[test]
fn hunks_need_one_place() {
    let hunk = Hunk { before: "b\n".to_string(), after: "B\n".to_string() };
    assert_eq!(apply_hunk("a\nb\nc\n", &hunk).unwrap(), "a\nB\nc\n");
    assert!(apply_hunk("a\n", &hunk).is_err());
    assert!(apply_hunk("b\nb\n", &hunk).is_err());
}

#[test]
fn failed_context_merges_adjacent_anchor_windows() {
    let lines = hashline::render("one\ntwo\nthree\nfour\nfive\nsix\n");
    let first = hashline::Anchor { line: 2, tag: "bad".to_string() };
    let second = hashline::Anchor { line: 4, tag: "bad".to_string() };
    let anchors = vec![&first, &second];
    let context = surrounding_context(&lines, anchors);
    assert!(!context.contains("omitted"));
    assert!(context.contains("1:"));
    assert!(context.contains("5:"));
}

fn anchor(text: &str, line: usize) -> String {
    let lines = hashline::render(text);
    format!("{}:{}", lines[line - 1].line, lines[line - 1].tag)
}

#[test]
fn hashline_patches_change_the_anchored_lines() {
    let source = "one\ntwo\nthree\n";
    let replace = PatchHashlineOperation::Replace {
        path: "a.txt".to_string(),
        anchor_start: anchor(source, 2),
        anchor_end: anchor(source, 2),
        content: "TWO".to_string(),
    };
    let delete = PatchHashlineOperation::Delete {
        path: "a.txt".to_string(),
        anchor_start: anchor(source, 3),
        anchor_end: anchor(source, 3),
    };
    let operations = vec![
        operation_to_domain(&replace).unwrap(),
        operation_to_domain(&delete).unwrap(),
    ];
    let snapshots = vec![(
        "a.txt".to_string(),
        snapshot_file(FileRead::Bytes { bytes: source.as_bytes().to_vec() }),
    )];
    let tool = ToolPatchHashline::new();
    let mut run = tool.plan(operations, snapshots);
    assert_eq!(run.plans.len(), 1);
    assert_eq!(run.plans[0].content, "one\nTWO\n");
    run.record_write("a.txt", None);
    let (output, notes) = run.report();
    assert!(matches!(output, ToolOutput::Success { .. }));
    assert!(matches!(&notes[0], NoteContent::Diff { file, .. } if file == "a.txt"));
}

#[test]
fn stale_anchors_are_refused() {
    let lines = hashline::render("one\ntwo\n");
    let fresh_anchor = hashline::Anchor { line: 1, tag: lines[0].tag.clone() };
    assert!(matches!(resolve_anchor(&lines, &fresh_anchor), Ok(0)));
    let stale = hashline::Anchor { line: 1, tag: "zzz".to_string() };
    assert!(matches!(resolve_anchor(&lines, &stale), Err(AnchorError::Stale)));
    let insert = PatchHashlineOperation::InsertAfter {
        path: "a.txt".to_string(),
        anchor: "1:zzz".to_string(),
        content: "x".to_string(),
    };
    let run = ToolPatchHashline::new().plan(
        vec![operation_to_domain(&insert).unwrap()],
        vec![(
            "a.txt".to_string(),
            snapshot_file(FileRead::Bytes { bytes: b"one\n".to_vec() }),
        )],
    );
    assert!(run.plans.is_empty());
    assert!(matches!(run.report().0, ToolOutput::Failure { .. }));
}

#[test]
fn diffs_show_what_changed() {
    let diff = unified_diff("a.txt", "one\ntwo\nthree\n", "one\n2\nthree\n");
    assert!(diff.contains("-two\n"));
    assert!(diff.contains("+2\n"));
    assert!(!diff.contains("-one"));
    assert!(diff.contains("a.txt"));
}

#[test]
fn freeform_uses_path_on_first_line_and_preserves_content() {
    assert_eq!(
        parse_write_freeform("dir/my file.txt\r\nfirst\n<<<EOF\nlast").unwrap(),
        object(vec![
            field("path", Json::text("dir/my file.txt")),
            field("content", Json::text("first\n<<<EOF\nlast")),
        ])
    );
    assert_eq!(
        parse_write_freeform("empty.txt\n").unwrap(),
        object(vec![
            field("path", Json::text("empty.txt")),
            field("content", Json::text("")),
        ])
    );
}

#[test]
fn freeform_requires_a_non_empty_path_line() {
    assert!(parse_write_freeform("missing-newline").is_err());
    assert!(parse_write_freeform("\ncontent").is_err());
}

#[test]
fn file_tools_tell_what_they_did() {
    let input = object(vec![field("path", Json::text("a.txt"))]);
    assert_eq!(ToolDelete::new().target(&input).unwrap(), "a.txt");
    assert!(ToolDelete::new().target(&object(vec![])).is_err());
    let (output, _) = match ToolFsDelete::new().conclude("a.txt", Change::Done) {
        Ok(result) => result,
        Err(_) => panic!("the file was deleted"),
    };
    assert!(matches!(output, ToolOutput::Success { .. }));
    assert!(matches!(
        ToolFsDelete::new().conclude("a.txt", Change::Cancelled),
        Err(Error::Cancelled)
    ));
    let (output, note) = match ToolFsDelete::new().conclude(
        "a.txt",
        Change::Failed("denied".to_string()),
    ) {
        Ok(result) => result,
        Err(_) => panic!("the failure is told"),
    };
    assert!(matches!(output, ToolOutput::Failure { content } if content.contains("denied")));
    assert!(matches!(note, NoteContent::Alert { .. }));
    let names = object(vec![
        field("from", Json::text("a")),
        field("to", Json::text("b")),
    ]);
    assert_eq!(
        ToolRename::new().targets(&names).unwrap(),
        ("a".to_string(), "b".to_string())
    );
    assert!(ToolFsRename::new().targets(&input).is_err());
    let blank = WriteInput { path: String::new(), content: String::new() };
    assert!(ToolWrite::new().check(&blank).is_err());
}

#[test]
fn questions_stop_the_turn() {
    let tool = ToolQuestion::new();
    let asked = tool
        .read(&object(vec![
            field("question", Json::text("Which?")),
            field("choices", array(vec![Json::text("a"), Json::text("b")])),
        ]));
    let question = match asked {
        Ok(Asked::Question(question)) => question,
        _ => panic!("the question is complete"),
    };
    assert_eq!(question.choices, vec!["a", "b"]);
    assert!(matches!(tool.conclude(&question).0, ToolOutput::Stop));
    let stored = tool.store(&question, "turn-1");
    assert_eq!(stored.get_str("question"), Some("Which?"));
    assert!(tool.read(&object(vec![])).is_err());
    assert!(matches!(
        tool.read(&object(vec![
            field("question", Json::text("Which?")),
            field("choices", array(vec![Json::Null])),
        ])),
        Ok(Asked::Refused(..))
    ));
}

#[test]
fn todo_lists_have_known_states() {
    let tool = ToolTodo::new();
    let items = |status: &str| {
        object(vec![field(
            "todos",
            array(vec![object(vec![
                field("content", Json::text("write")),
                field("status", Json::text(status)),
            ])]),
        )])
    };
    let list = match tool.read(&items("in_progress")) {
        Ok(TodoUpdate::Items(list)) => list,
        _ => panic!("the list is complete"),
    };
    assert_eq!(list[0].status, "in_progress");
    assert!(matches!(tool.conclude(&list).0, ToolOutput::Success { .. }));
    assert!(matches!(tool.read(&items("someday")), Ok(TodoUpdate::Refused(..)) | Err(_)));
}

#[test]
fn only_the_web_is_fetched() {
    let tool = ToolWebfetch::new().with_limits(1, 4);
    let request = |url: &str| tool.request(&object(vec![field("url", Json::text(url))]));
    assert!(matches!(
        request("https://example.com/a"),
        Ok(Fetch::Url(url)) if url == "https://example.com/a"
    ));
    assert!(matches!(request("ftp://example.com"), Ok(Fetch::Refused(_))));
    assert!(!matches!(request("not a url"), Ok(Fetch::Url(_))));
    assert!(matches!(decide("http://x", Ok("http".to_string())), Ok(Fetch::Url(_))));
    let mut body = Vec::new();
    assert!(tool.take_chunk(&mut body, b"ab").is_none());
    assert!(tool.take_chunk(&mut body, b"cde").is_some());
    assert!(matches!(
        tool.show("200 OK", true, b"a\xff"),
        ToolOutput::Success { content } if content.contains("a\u{fffd}")
    ));
    assert!(matches!(tool.show("404 Not Found", false, b""), ToolOutput::Failure { .. }));
}

#[test]
fn shells_show_their_status() {
    let tool = ToolShell::new().with_max_output(10);
    let command = tool.command("ls -l", false);
    assert_eq!(command.program, "sh");
    assert_eq!(command.args.last().unwrap(), "ls -l");
    assert_eq!(command.max_output_bytes, Some(10));
    assert!(matches!(tool.show("ls", &ended(0, "a")).0, ToolOutput::Success { .. }));
    assert!(matches!(tool.show("ls", &ended(2, "")).0, ToolOutput::Failure { .. }));
    assert!(matches!(tool.failed("ls", "no".to_string()).0, ToolOutput::Failure { .. }));
}

fn context(line: usize, text: &str) -> ContextLine {
    ContextLine {
        line_number: line,
        display_prefix: line.to_string(),
        text: text.to_string(),
    }
}

#[test]
fn reading_orders_its_limits() {
    let tool = ToolRead::new().with_limits(10, 100);
    let input = ReadInput {
        path: "a".to_string(),
        line_start: Some(5),
        line_end: Some(2),
    };
    assert_eq!(tool.range(&input).unwrap(), (Some(2), Some(5)));
    let nowhere = ReadInput { path: String::new(), line_start: None, line_end: None };
    assert!(tool.range(&nowhere).is_err());
    assert_eq!(tool.show(&input, &[context(2, "b"), context(3, "c")]).0, success("2|b\n3|c"));
    assert!(matches!(
        tool.failed(ReadFailure::Workdir("missing".to_string(), Some("b".to_string()))).0,
        ToolOutput::Failure { content } if content.contains("b")
    ));
}

#[test]
fn grep_shows_matches_with_their_lines() {
    let event = "{\"type\":\"match\",\"data\":{\"path\":{\"text\":\"a.rs\"},\"line_number\":2}}";
    let matches = parse_matches(&format!("{event}\n{{\"type\":\"end\"}}\nbroken\n"));
    assert_eq!(matches.len(), 1);
    assert_eq!(matches[0].path, "a.rs");
    assert_eq!(matches[0].line, 2);
    let tool = ToolGrep::new();
    let input = GrepInput {
        pattern: "x".to_string(),
        path: None,
        glob: None,
        max_results: None,
    };
    assert_eq!(tool.command(&input).unwrap().program, "rg");
    let result = ended(0, event);
    match tool.examine(&input, &result) {
        SearchResult::Show { matches, requests } => {
            assert_eq!(requests.len(), 1);
            let files = vec![FileLines {
                path: "a.rs".to_string(),
                lines: vec![context(2, "let x;")],
            }];
            match tool.show(&input, &result, &matches, &files).0 {
                ToolOutput::Success { content } => assert!(content.contains("a.rs:2|let x;")),
                _ => panic!("there is a match"),
            }
        }
        SearchResult::Answer { .. } => panic!("there is a match"),
    }
    assert!(matches!(tool.examine(&input, &ended(1, "")), SearchResult::Answer { .. }));
}

#[test]
fn notes_follow_the_output() {
    assert_eq!(
        output_note("done", &success("x")),
        NoteContent::Subtle { content: "done".to_string() }
    );
    let (output, note) = noted("done", ToolOutput::Failure { content: "bad".to_string() });
    assert!(matches!(output, ToolOutput::Failure { .. }));
    assert!(matches!(note, NoteContent::Alert { .. }));
}

#[test]
fn identifiers_of_tools_are_fresh() {
    assert_ne!(ToolShell::new().id, ToolShell::new().id);
    assert_ne!(fresh(), fresh());
    for value in [fresh(), ToolShell::new().id.0, ToolShellPlugin::new().id.0] {
        assert_eq!(value >> 76 & 0xf, 4);
        assert_eq!(value >> 62 & 0b11, 0b10);
    }
    assert!(matches!(Json::Number(JsonNumber::Unsigned(3)).as_u64(), Some(3)));
}

#[test]
fn conflicting_edits_do_not_both_stand() {
    let source = "one\ntwo\nthree\n";
    let replace = |content: &str| PatchHashlineOperation::Replace {
        path: "a.txt".to_string(),
        anchor_start: anchor(source, 1),
        anchor_end: anchor(source, 2),
        content: content.to_string(),
    };
    let operations = vec![
        operation_to_domain(&replace("x")).unwrap(),
        operation_to_domain(&replace("y")).unwrap(),
    ];
    let snapshots = vec![(
        "a.txt".to_string(),
        snapshot_file(FileRead::Bytes { bytes: source.as_bytes().to_vec() }),
    )];
    let run = ToolPatchHashline::new().plan(operations, snapshots);
    assert!(run.outcomes.iter().any(|outcome| outcome.failure.is_some()));
    assert!(matches!(run.report().0, ToolOutput::Failure { .. }));
}

#[test]
fn files_that_are_only_looked_at_stay() {
    let mut files = PatchFiles::new();
    files.load_file("seen.txt", Some(b"x".to_vec()), 100).unwrap();
    assert!(files.writes().is_empty());
    assert!(files.removals().is_empty());
    assert!(files.load_file("big.txt", Some(b"too long".to_vec()), 3).is_err());
}

#[test]
fn tools_describe_themselves() {
    let schema = || object(vec![field("type", Json::text("object"))]);
    let patch = ToolPatchHashline::new().definition("Edit by anchors.\n", schema());
    assert_eq!(patch.name, "patch_hashline");
    assert_eq!(patch.description, "Edit by anchors.\n");
    let apply = ToolPatchApplyPatch::new().definition(" Apply a patch.\n", schema());
    assert_eq!(apply.name, "apply_patch");
    assert_eq!(apply.description, "Apply a patch.");
    let shell = ToolShell::new().definition(schema());
    assert!(shell.freeform.is_some());
    assert_eq!(ToolGrep::new().definition(schema()).schema, schema());
    assert_eq!(ToolRead::new().definition(schema()).name, "read");
    assert_eq!(ToolFind::new().definition(schema()).name, "find");
    assert_eq!(ToolFindFile::new().definition(schema()).name, "find_file");
    assert_eq!(ToolTodo::new().definition(schema()).freeform, None);
    assert_eq!(ToolQuestion::new().definition(schema()).name, "question");
    assert_eq!(ToolWrite::new().definition(schema()).name, "write");
}

fn complaint<T>(result: Result<T, Error>) -> String {
    match result {
        Err(Error::Tool(message)) => message,
        _ => panic!("the input is refused"),
    }
}

#[test]
fn tools_refuse_the_other_kind_of_input() {
    let text = ToolInput::Text("ls".to_string());
    let object = ToolInput::Json(Json::Null);
    assert_eq!(ToolShell::new().input(&text).unwrap(), "ls");
    assert_eq!(complaint(ToolShell::new().input(&object)), "shell input must be text");
    assert!(ToolTodo::new().input(&object).is_ok());
    assert_eq!(complaint(ToolTodo::new().input(&text)), "todo input must be an object");
    assert_eq!(complaint(ToolQuestion::new().input(&text)), "question input must be an object");
    assert_eq!(complaint(ToolFind::new().input(&text)), "find input must be an object");
    assert_eq!(complaint(ToolFindFile::new().input(&text)), "find_file input must be an object");
}

#[test]
fn free_writing_has_a_description_of_its_own() {
    assert!(ToolWrite::new().freeform_description().contains("path on the first line"));
}

#[test]
fn grep_counts_two_spellings_of_a_path_as_one_file() {
    let event = |path: &str, line: usize| {
        format!(
            "{{\"type\":\"match\",\"data\":{{\"path\":{{\"text\":\"{path}\"}},\"line_number\":{line}}}}}"
        )
    };
    let tool = ToolGrep::new();
    let input = GrepInput {
        pattern: "x".to_string(),
        path: None,
        glob: None,
        max_results: None,
    };
    let result = ended(0, &format!("{}\n{}\n", event("src/a.rs", 2), event("src//./a.rs", 5)));
    let (matches, requests) = match tool.examine(&input, &result) {
        SearchResult::Show { matches, requests } => (matches, requests),
        SearchResult::Answer { .. } => panic!("there are matches"),
    };
    assert_eq!(requests.len(), 1);
    assert_eq!(requests[0].path, "src/a.rs");
    assert_eq!((requests[0].start, requests[0].end), (2, 5));
    let files = vec![FileLines {
        path: "src/a.rs".to_string(),
        lines: vec![context(2, "let x;"), context(5, "x();")],
    }];
    match tool.show(&input, &result, &matches, &files).0 {
        ToolOutput::Success { content } => {
            assert!(content.contains("src/a.rs:2|let x;"));
            assert!(content.contains("src//./a.rs:5|x();"));
        }
        _ => panic!("there are matches"),
    }
}

#[test]
fn plugins_offer_the_same_tool_each_time() {
    let find = ToolFindPlugin::new();
    assert_eq!(find.tool().id, find.tool().id);
    assert_eq!(find.tool().max_results, 500);
    let find_file = ToolFindFilePlugin::new();
    assert_eq!(find_file.tool().id, find_file.tool().id);
    assert_eq!(find_file.tool().max_output_bytes, 128 * 1024);
    let shell = ToolShellPlugin::new();
    assert_eq!(shell.tool().id, shell.tool().id);
    assert_ne!(shell.tool().id, ToolShellPlugin::new().tool().id);
}

#[test]
fn definition_uses_hashline_patch_prompt() {
    let prompt = "Edit files by line anchors.\n\nAnchors look like `12:abc|`.\n";
    let definition = ToolPatchHashline::new().definition(prompt, object(vec![]));
    assert_eq!(definition.description, prompt);
}
