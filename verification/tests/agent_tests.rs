use opencrab::agent::{
    bash_result, bash_timeout_secs, file_error, number_lines, resolve_path, select_provider,
    split_lines, system_prompt_or_default, AgentError, BashArgs, BashError, BashOutput,
    CommandOutcome, FileError, Provider, ReadFailure, ReadFileTool, BashTool, Role, StatefulAgent,
};
use opencrab::json::{lookup_dotted_key, JsonValue};

fn text_at(v: &JsonValue, key: &str) -> Option<String> {
    match lookup_dotted_key(v, key) {
        JsonValue::String(s) => Some(s),
        _ => None,
    }
}

fn required_of(v: &JsonValue) -> Vec<String> {
    match lookup_dotted_key(v, "required") {
        JsonValue::Array(items) => items
            .into_iter()
            .map(|i| match i {
                JsonValue::String(s) => s,
                _ => panic!("required names are strings"),
            })
            .collect(),
        _ => panic!("required is an array"),
    }
}

#[test]
fn tool_definitions() {
    let bash = BashTool { cwd: ".".to_string() }.definition();
    assert_eq!(bash.name, "bash");
    assert_eq!(bash.description, "Execute a shell command and return stdout, stderr, and exit code.");
    assert_eq!(text_at(&bash.parameters, "type").as_deref(), Some("object"));
    assert_eq!(text_at(&bash.parameters, "properties.command.type").as_deref(), Some("string"));
    assert_eq!(
        text_at(&bash.parameters, "properties.timeout.description").as_deref(),
        Some("Timeout in seconds (default: 30)")
    );
    assert_eq!(required_of(&bash.parameters), vec!["command".to_string()]);

    let read = ReadFileTool { cwd: ".".to_string() }.definition();
    assert_eq!(read.name, "read_file");
    assert_eq!(read.description, "Read the contents of a file. Returns the file content with line numbers.");
    assert_eq!(text_at(&read.parameters, "properties.path.type").as_deref(), Some("string"));
    assert_eq!(text_at(&read.parameters, "properties.offset.type").as_deref(), Some("integer"));
    assert_eq!(
        text_at(&read.parameters, "properties.limit.description").as_deref(),
        Some("Maximum number of lines to read")
    );
    assert_eq!(required_of(&read.parameters), vec!["path".to_string()]);
}


#[test]
fn agent_history_grows_by_exchanges_and_resets() {
    let mut agent = match StatefulAgent::new("openai", &None) {
        Ok(a) => a,
        Err(_) => panic!("openai is supported"),
    };
    assert!(agent.provider() == Provider::OpenAI);
    assert_eq!(agent.preamble(), "You are a helpful assistant.");
    assert_eq!(agent.message_count(), 0);
    agent.record_exchange("hello", "hi there");
    assert_eq!(agent.message_count(), 2);
    let m = agent.messages();
    assert!(m[0].role == Role::User && m[0].text == "hello");
    assert!(m[1].role == Role::Assistant && m[1].text == "hi there");
    agent.record_exchange("again", "sure");
    assert_eq!(agent.message_count(), 4);
    agent.reset();
    assert_eq!(agent.message_count(), 0);
}

#[test]
fn agent_providers() {
    assert!(matches!(select_provider("anthropic"), Ok(Provider::Anthropic)));
    match StatefulAgent::new("anthropic", &Some("Be brief.".to_string())) {
        Ok(a) => assert_eq!(a.preamble(), "Be brief."),
        Err(_) => panic!("anthropic is supported"),
    }
    match StatefulAgent::new("gemini", &None) {
        Err(e) => {
            assert!(matches!(e, AgentError::UnknownProvider(ref p) if p == "gemini"));
            assert_eq!(e.message(), "Unknown provider: gemini. Supported: openai, anthropic");
        }
        Ok(_) => panic!("unknown provider"),
    }
    assert_eq!(system_prompt_or_default(&None), "You are a helpful assistant.");
}

#[test]
fn bash_outcomes() {
    let args = BashArgs { command: "ls".to_string(), timeout: None };
    assert_eq!(bash_timeout_secs(&args), 30);
    let args = BashArgs { command: "ls".to_string(), timeout: Some(5) };
    assert_eq!(bash_timeout_secs(&args), 5);
    let done = CommandOutcome::Completed {
        stdout: b"out".to_vec(),
        stderr: Vec::new(),
        status_code: None,
    };
    match bash_result(done, 30) {
        Ok(o) => {
            assert_eq!(o.stdout, "out");
            assert_eq!(o.stderr, "");
            assert_eq!(o.exit_code, -1);
        }
        Err(_) => panic!("completed"),
    }
    let done = CommandOutcome::Completed {
        stdout: vec![b'o', 0xff, b'k'],
        stderr: "d\u{e9}j\u{e0}".as_bytes().to_vec(),
        status_code: Some(2),
    };
    match bash_result(done, 30) {
        Ok(o) => {
            assert_eq!(o.stdout, "o\u{fffd}k");
            assert_eq!(o.stderr, "d\u{e9}j\u{e0}");
            assert_eq!(o.exit_code, 2);
        }
        Err(_) => panic!("completed"),
    }
    match bash_result(CommandOutcome::TimedOut, 7) {
        Err(e) => {
            assert!(matches!(e, BashError::Timeout(7)));
            assert_eq!(e.message(), "Command timed out after 7 seconds");
        }
        Ok(_) => panic!("timed out"),
    }
    match bash_result(CommandOutcome::Failed("no sh".to_string()), 7) {
        Err(e) => assert_eq!(e.message(), "Command execution failed: no sh"),
        Ok(_) => panic!("failed"),
    }
}

#[test]
fn bash_output_rendering() {
    let o = |out: &str, err: &str, code: i32| BashOutput {
        stdout: out.to_string(),
        stderr: err.to_string(),
        exit_code: code,
    };
    assert_eq!(o("a", "", 0).render(), "a");
    assert_eq!(o("a", "b", 0).render(), "a\nstderr: b");
    assert_eq!(o("", "b", 0).render(), "stderr: b");
    assert_eq!(o("a", "b", 2).render(), "a\nstderr: b\n(exit code: 2)");
    assert_eq!(o("", "", -1).render(), "\n(exit code: -1)");
}

#[test]
fn lines_like_str_lines() {
    for text in ["", "a", "a\n", "a\r\nb", "a\n\nb\n", "\n", "x\r", "a\rb\n"] {
        let ours = split_lines(text);
        let std_lines: Vec<String> = text.lines().map(|l| l.to_string()).collect();
        assert_eq!(ours, std_lines, "text {text:?}");
    }
}

#[test]
fn numbered_lines() {
    let text = "first\nsecond\nthird\n";
    let all = number_lines(text, None, None);
    assert_eq!(all.lines, 3);
    assert_eq!(all.content, "   1\tfirst\n   2\tsecond\n   3\tthird");
    let some = number_lines(text, Some(1), Some(1));
    assert_eq!(some.content, "   2\tsecond");
    assert_eq!(some.lines, 3);
    let none = number_lines(text, Some(10), None);
    assert_eq!(none.content, "");
    let many: String = (0..12000).map(|i| format!("{i}\n")).collect();
    let out = number_lines(&many, Some(9990), None);
    assert!(out.content.starts_with("9991\t9990\n9992\t9991"));
    assert_eq!(out.content.lines().count(), 2000);
    assert_eq!(out.lines, 12000);
}

#[test]
fn file_paths_and_errors() {
    assert_eq!(resolve_path("/work", "src/main.rs"), "/work/src/main.rs");
    assert_eq!(resolve_path("/work", "/etc/hosts"), "/etc/hosts");
    let e = file_error(ReadFailure::NotFound, "/x".to_string(), "gone".to_string());
    assert!(matches!(e, FileError::NotFound(ref p) if p == "/x"));
    assert_eq!(e.message(), "File not found: /x");
    let e = file_error(ReadFailure::PermissionDenied, "/y".to_string(), "no".to_string());
    assert_eq!(e.message(), "Permission denied: /y");
    let e = file_error(ReadFailure::Other, "/z".to_string(), "disk".to_string());
    assert_eq!(e.message(), "IO error: disk");
}

#[test]
fn prompt_outcomes_update_history() {
    let mut agent = match StatefulAgent::new("anthropic", &Some("Be brief.".to_string())) {
        Ok(a) => a,
        Err(_) => panic!("anthropic is supported"),
    };
    let failed: Result<String, String> = Err("down".to_string());
    assert_eq!(agent.complete_prompt("hi", failed), Err("down".to_string()));
    assert_eq!(agent.message_count(), 0);
    let ok: Result<String, String> = Ok("hello".to_string());
    assert_eq!(agent.complete_prompt("hi", ok), Ok("hello".to_string()));
    assert_eq!(agent.message_count(), 2);
    assert!(agent.messages()[0].role == Role::User && agent.messages()[0].text == "hi");
    assert!(agent.messages()[1].role == Role::Assistant && agent.messages()[1].text == "hello");
}
