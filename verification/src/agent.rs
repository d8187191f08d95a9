use vstd::prelude::*;
use vstd::utf8::*;

use crate::config::{join_path, join_path_spec};
use crate::json::{JsonValue, JsonView};
use crate::text::{
    chars_of, concat2, decimal_spec, fmt_i64, fmt_u64, owned, pad_left, pad_left_spec,
    signed_decimal_spec, str_eq,
};

verus! {

// ---------------------------------------------------------------------------
// The conversation agent
// ---------------------------------------------------------------------------

/// The LLM providers that the agent can use.
#[derive(PartialEq, Eq, Structural)]
pub enum Provider {
    OpenAI,
    Anthropic,
}

/// Why an agent could not be created.
pub enum AgentError {
    /// The configured provider is not one of the supported ones.
    UnknownProvider(String),
}

impl AgentError {
    /// The error's text.
    pub open spec fn message_of(&self) -> Seq<char> {
        match self {
            AgentError::UnknownProvider(p) => "Unknown provider: "@ + p@
                + ". Supported: openai, anthropic"@,
        }
    }

    /// The error's text.
    pub fn message(&self) -> (m: String)
        ensures
            m@ == self.message_of(),
    {
        match self {
            AgentError::UnknownProvider(p) => {
                let mut m = concat2("Unknown provider: ", p.as_str());
                m.append(". Supported: openai, anthropic");
                m
            },
        }
    }
}

/// The provider that a configured name selects.
pub open spec fn provider_of(name: Seq<char>) -> Option<Provider> {
    if name == "openai"@ {
        Some(Provider::OpenAI)
    } else if name == "anthropic"@ {
        Some(Provider::Anthropic)
    } else {
        None
    }
}

/// The provider that a configured name selects.
pub fn select_provider(name: &str) -> (r: Result<Provider, AgentError>)
    ensures
        match provider_of(name@) {
            Some(p) => r == Ok::<Provider, AgentError>(p),
            None => (r matches Err(AgentError::UnknownProvider(n)) && n@ == name@),
        },
{
    if str_eq(name, "openai") {
        Ok(Provider::OpenAI)
    } else if str_eq(name, "anthropic") {
        Ok(Provider::Anthropic)
    } else {
        Err(AgentError::UnknownProvider(owned(name)))
    }
}

/// The system prompt: the configured one, or a default.
pub fn system_prompt_or_default(configured: &Option<String>) -> (r: String)
    ensures
        r@ == match configured {
            Some(p) => p@,
            None => "You are a helpful assistant."@,
        },
{
    match configured {
        Some(p) => p.clone(),
        None => "You are a helpful assistant.".to_owned(),
    }
}

/// Who said a message in the conversation.
#[derive(PartialEq, Eq, Structural)]
pub enum Role {
    User,
    Assistant,
}

/// One message of the conversation history.
pub struct ChatMessage {
    pub role: Role,
    pub text: String,
}

/// The model of a history: each message's role and text.
pub open spec fn history_view(h: Seq<ChatMessage>) -> Seq<(Role, Seq<char>)> {
    h.map_values(|m: ChatMessage| (m.role, m.text@))
}

/// A stateful agent: its provider, system prompt and the conversation so far.
pub struct StatefulAgent {
    provider: Provider,
    preamble: String,
    messages: Vec<ChatMessage>,
}

impl StatefulAgent {
    /// The conversation so far.
    pub closed spec fn history(&self) -> Seq<(Role, Seq<char>)> {
        history_view(self.messages@)
    }

    /// The provider in use.
    pub closed spec fn provider_spec(&self) -> Provider {
        self.provider
    }

    /// The system prompt.
    pub closed spec fn preamble_spec(&self) -> Seq<char> {
        self.preamble@
    }

    /// Create a new agent for the named provider, with an empty history.
    pub fn new(provider: &str, system_prompt: &Option<String>) -> (r: Result<Self, AgentError>)
        ensures
            match provider_of(provider@) {
                Some(p) => (r matches Ok(a) && a.provider_spec() == p && a.history().len() == 0
                    && a.preamble_spec() == match system_prompt {
                    Some(s) => s@,
                    None => "You are a helpful assistant."@,
                }),
                None => (r matches Err(AgentError::UnknownProvider(n)) && n@ == provider@),
            },
    {
        let p = match select_provider(provider) {
            Ok(p) => p,
            Err(e) => {
                return Err(e);
            },
        };
        let preamble = system_prompt_or_default(system_prompt);
        let r = StatefulAgent { provider: p, preamble, messages: Vec::new() };
        assert(history_view(r.messages@) =~= Seq::<(Role, Seq<char>)>::empty());
        Ok(r)
    }

    /// The provider in use.
    pub fn provider(&self) -> (p: Provider)
        ensures
            p == self.provider_spec(),
    {
        match self.provider {
            Provider::OpenAI => Provider::OpenAI,
            Provider::Anthropic => Provider::Anthropic,
        }
    }

    /// The system prompt.
    pub fn preamble(&self) -> (s: &str)
        ensures
            s@ == self.preamble_spec(),
    {
        self.preamble.as_str()
    }

    /// The conversation so far, oldest first.
    pub fn messages(&self) -> (m: &Vec<ChatMessage>)
        ensures
            history_view(m@) == self.history(),
    {
        &self.messages
    }

    /// Records a completed exchange: the user's input, then the reply.
    pub fn record_exchange(&mut self, input: &str, reply: &str)
        ensures
            final(self).history() == old(self).history().push((Role::User, input@)).push(
                (Role::Assistant, reply@),
            ),
            final(self).provider_spec() == old(self).provider_spec(),
            final(self).preamble_spec() == old(self).preamble_spec(),
    {
        let ghost before = history_view(self.messages@);
        self.messages.push(ChatMessage { role: Role::User, text: owned(input) });
        self.messages.push(ChatMessage { role: Role::Assistant, text: owned(reply) });
        assert(history_view(self.messages@) =~= before.push((Role::User, input@)).push(
            (Role::Assistant, reply@),
        ));
    }

    /// Concludes a prompt with the model's outcome: a reply is recorded as an
    /// exchange with `input` and handed back; a failure leaves the history as
    /// it was and is handed back.
    pub fn complete_prompt<E>(&mut self, input: &str, outcome: Result<String, E>) -> (r: Result<
        String,
        E,
    >)
        ensures
            r == outcome,
            match outcome {
                Ok(reply) => final(self).history() == old(self).history().push(
                    (Role::User, input@),
                ).push((Role::Assistant, reply@)),
                Err(_) => final(self).history() == old(self).history(),
            },
            final(self).provider_spec() == old(self).provider_spec(),
            final(self).preamble_spec() == old(self).preamble_spec(),
    {
        match outcome {
            Ok(reply) => {
                self.record_exchange(input, reply.as_str());
                Ok(reply)
            },
            Err(e) => Err(e),
        }
    }

    /// Clear conversation history.
    pub fn reset(&mut self)
        ensures
            final(self).history().len() == 0,
            final(self).provider_spec() == old(self).provider_spec(),
            final(self).preamble_spec() == old(self).preamble_spec(),
    {
        self.messages.clear();
        assert(history_view(self.messages@) =~= Seq::<(Role, Seq<char>)>::empty());
    }

    /// Get the current message count.
    pub fn message_count(&self) -> (n: usize)
        ensures
            n as nat == self.history().len(),
    {
        self.messages.len()
    }
}

/// A history of exchanges: user and assistant messages alternate, starting
/// with the user, and every user message has its reply.
pub open spec fn alternates(h: Seq<(Role, Seq<char>)>) -> bool {
    &&& h.len() % 2 == 0
    &&& forall|i: int|
        0 <= i < h.len() ==> (#[trigger] h[i]).0 == if i % 2 == 0 {
            Role::User
        } else {
            Role::Assistant
        }
}

/// The history is always a sequence of exchanges: a new or reset agent's
/// history is empty, and recording an exchange on a history of exchanges
/// gives one exchange more.
pub proof fn history_law(a: StatefulAgent, input: Seq<char>, reply: Seq<char>)
    requires
        alternates(a.history()),
    ensures
        alternates(Seq::<(Role, Seq<char>)>::empty()),
        alternates(a.history().push((Role::User, input)).push((Role::Assistant, reply))),
{
    let h = a.history();
    let g = h.push((Role::User, input)).push((Role::Assistant, reply));
    assert forall|i: int| 0 <= i < g.len() implies (#[trigger] g[i]).0 == if i % 2 == 0 {
        Role::User
    } else {
        Role::Assistant
    } by {
        if i < h.len() {
            assert(g[i] == h[i]);
        }
    }
}

/// Events emitted during agent processing.
pub enum AgentEvent {
    /// A text delta from the LLM.
    TextDelta { delta: String },
    /// A tool call is starting.
    ToolCallStart { name: String, args: JsonValue },
    /// A tool call completed.
    ToolCallEnd { name: String, result: String },
    /// The agent has finished processing.
    Done { full_text: String },
    /// An error occurred.
    Error { message: String },
}

// ---------------------------------------------------------------------------
// Tool definitions
// ---------------------------------------------------------------------------

/// How a tool is announced to the model: its name, what it does, and the
/// JSON schema of its arguments.
pub struct ToolSpec {
    pub name: String,
    pub description: String,
    pub parameters: JsonValue,
}

/// The schema of one argument: `{"type": kind, "description": description}`.
pub open spec fn property_view(kind: Seq<char>, description: Seq<char>) -> JsonView {
    JsonView::Object(
        seq![("type"@, JsonView::Str(kind)), ("description"@, JsonView::Str(description))],
    )
}

/// The schema of an argument object:
/// `{"type": "object", "properties": properties, "required": [required]}`.
pub open spec fn object_schema_view(properties: JsonView, required: Seq<char>) -> JsonView {
    JsonView::Object(
        seq![
            ("type"@, JsonView::Str("object"@)),
            ("properties"@, properties),
            ("required"@, JsonView::Array(seq![JsonView::Str(required)])),
        ],
    )
}

/// The schema of one argument.
fn property(kind: &str, description: &str) -> (r: JsonValue)
    ensures
        r.view() == property_view(kind@, description@),
{
    let mut members: Vec<(String, JsonValue)> = Vec::new();
    members.push(("type".to_owned(), JsonValue::String(kind.to_owned())));
    members.push(("description".to_owned(), JsonValue::String(description.to_owned())));
    assert(members@[0].1.view() == JsonView::Str(kind@));
    assert(members@[1].1.view() == JsonView::Str(description@));
    let r = JsonValue::Object(members);
    assert(r.view()->Object_0 =~= property_view(kind@, description@)->Object_0);
    r
}

/// An object of two named members.
fn pair_object(k1: &str, v1: JsonValue, k2: &str, v2: JsonValue) -> (r: JsonValue)
    ensures
        r.view() == JsonView::Object(seq![(k1@, v1.view()), (k2@, v2.view())]),
{
    let ghost (w1, w2) = (v1.view(), v2.view());
    let mut members: Vec<(String, JsonValue)> = Vec::new();
    members.push((k1.to_owned(), v1));
    members.push((k2.to_owned(), v2));
    let r = JsonValue::Object(members);
    assert(r.view()->Object_0 =~= seq![(k1@, w1), (k2@, w2)]);
    r
}

/// The schema of an argument object.
fn object_schema(properties: JsonValue, required: &str) -> (r: JsonValue)
    ensures
        r.view() == object_schema_view(properties.view(), required@),
{
    let ghost pv = properties.view();
    let mut req: Vec<JsonValue> = Vec::new();
    req.push(JsonValue::String(required.to_owned()));
    assert(req@[0].view() == JsonView::Str(required@));
    let rv = JsonValue::Array(req);
    assert(rv.view()->Array_0 =~= seq![JsonView::Str(required@)]);
    let mut members: Vec<(String, JsonValue)> = Vec::new();
    members.push(("type".to_owned(), JsonValue::String("object".to_owned())));
    members.push(("properties".to_owned(), properties));
    members.push(("required".to_owned(), rv));
    assert(members@[0].1.view() == JsonView::Str("object"@));
    let r = JsonValue::Object(members);
    assert(r.view()->Object_0 =~= object_schema_view(pv, required@)->Object_0);
    r
}

/// The argument schema of the bash tool.
pub open spec fn bash_parameters_view() -> JsonView {
    object_schema_view(
        JsonView::Object(
            seq![
                ("command"@, property_view("string"@, "The shell command to execute"@)),
                ("timeout"@, property_view("integer"@, "Timeout in seconds (default: 30)"@)),
            ],
        ),
        "command"@,
    )
}

/// The argument schema of the read_file tool.
pub open spec fn read_file_parameters_view() -> JsonView {
    object_schema_view(
        JsonView::Object(
            seq![
                ("path"@, property_view(
                    "string"@,
                    "Path to the file (absolute or relative to working directory)"@,
                )),
                ("offset"@, property_view("integer"@, "Line offset to start reading from (0-based)"@)),
                ("limit"@, property_view("integer"@, "Maximum number of lines to read"@)),
            ],
        ),
        "path"@,
    )
}

// ---------------------------------------------------------------------------
// The bash tool
// ---------------------------------------------------------------------------

/// Tool for executing shell commands.
pub struct BashTool {
    pub cwd: String,
}

/// Arguments of the bash tool.
pub struct BashArgs {
    /// The shell command to execute.
    pub command: String,
    /// Timeout in seconds (default: 30).
    pub timeout: Option<u64>,
}

/// What a shell command printed and how it ended.
pub struct BashOutput {
    pub stdout: String,
    pub stderr: String,
    pub exit_code: i32,
}

/// Why a shell command gave no output.
pub enum BashError {
    ExecutionFailed(String),
    Timeout(u64),
}

/// Seconds a command may run when the arguments do not say.
pub const DEFAULT_BASH_TIMEOUT_SECS: u64 = 30;

impl BashTool {
    /// How the bash tool is announced to the model.
    pub fn definition(&self) -> (r: ToolSpec)
        ensures
            r.name@ == "bash"@,
            r.description@ == "Execute a shell command and return stdout, stderr, and exit code."@,
            r.parameters.view() == bash_parameters_view(),
    {
        let command = property("string", "The shell command to execute");
        let timeout = property("integer", "Timeout in seconds (default: 30)");
        let properties = pair_object("command", command, "timeout", timeout);
        ToolSpec {
            name: "bash".to_owned(),
            description: "Execute a shell command and return stdout, stderr, and exit code."
                .to_owned(),
            parameters: object_schema(properties, "command"),
        }
    }
}

/// The timeout of a bash call, in seconds.
pub fn bash_timeout_secs(args: &BashArgs) -> (r: u64)
    ensures
        r == match args.timeout {
            Some(t) => t,
            None => DEFAULT_BASH_TIMEOUT_SECS,
        },
{
    match args.timeout {
        Some(t) => t,
        None => DEFAULT_BASH_TIMEOUT_SECS,
    }
}

/// What `String::from_utf8_lossy` makes of a byte sequence: the text it
/// encodes, with each invalid sequence replaced by U+FFFD.
pub uninterp spec fn lossy_utf8(bytes: Seq<u8>) -> Seq<char>;

/// Decodes command output (`String::from_utf8_lossy`). The result is named by
/// `lossy_utf8`; of valid UTF-8 it is exactly the text that the bytes encode.
/// How invalid sequences are replaced is left unsaid.
#[verifier::external_body]
fn decode_lossy(bytes: &[u8]) -> (r: String)
    ensures
        r@ == lossy_utf8(bytes@),
        valid_utf8(bytes@) ==> encode_utf8(r@) == bytes@,
{
    String::from_utf8_lossy(bytes).into_owned()
}

/// How running a command ended.
pub enum CommandOutcome {
    /// The command ran: the bytes it wrote to stdout and stderr, and its exit
    /// status code (none when a signal ended it).
    Completed { stdout: Vec<u8>, stderr: Vec<u8>, status_code: Option<i32> },
    /// The command could not be run (the reason's text).
    Failed(String),
    /// The command outlived its timeout.
    TimedOut,
}

/// The output of a command that ran: its decoded output, and its exit code,
/// `-1` when a signal ended it.
pub fn bash_output(stdout: String, stderr: String, status_code: Option<i32>) -> (o: BashOutput)
    ensures
        o.stdout@ == stdout@,
        o.stderr@ == stderr@,
        o.exit_code == match status_code {
            Some(c) => c,
            None => -1i32,
        },
{
    BashOutput {
        stdout,
        stderr,
        exit_code: match status_code {
            Some(c) => c,
            None => -1,
        },
    }
}

/// The tool's result for a command outcome; output is decoded as UTF-8,
/// invalid sequences replaced.
pub fn bash_result(outcome: CommandOutcome, timeout_secs: u64) -> (r: Result<BashOutput, BashError>)
    ensures
        match outcome {
            CommandOutcome::Completed { stdout, stderr, status_code } => (r matches Ok(o)
                && o.stdout@ == lossy_utf8(stdout@) && o.stderr@ == lossy_utf8(stderr@)
                && (valid_utf8(stdout@) ==> encode_utf8(o.stdout@) == stdout@)
                && (valid_utf8(stderr@) ==> encode_utf8(o.stderr@) == stderr@)
                && o.exit_code == match status_code {
                Some(c) => c,
                None => -1i32,
            }),
            CommandOutcome::Failed(e) => (r matches Err(BashError::ExecutionFailed(m)) && m@
                == e@),
            CommandOutcome::TimedOut => (r matches Err(BashError::Timeout(t)) && t == timeout_secs),
        },
{
    match outcome {
        CommandOutcome::Completed { stdout, stderr, status_code } => {
            let out = decode_lossy(stdout.as_slice());
            let err = decode_lossy(stderr.as_slice());
            Ok(bash_output(out, err, status_code))
        },
        CommandOutcome::Failed(e) => Err(BashError::ExecutionFailed(e)),
        CommandOutcome::TimedOut => Err(BashError::Timeout(timeout_secs)),
    }
}

impl BashOutput {
    /// How the output is shown to the model: stdout, then `stderr: ...` on
    /// a line of its own when there is any, then the exit code when it is not 0.
    pub open spec fn render_spec(&self) -> Seq<char> {
        let out = self.stdout@;
        let err = self.stderr@;
        let a = out;
        let b = if err.len() > 0 {
            (if out.len() > 0 {
                a + "\n"@
            } else {
                a
            }) + "stderr: "@ + err
        } else {
            a
        };
        if self.exit_code != 0 {
            b + "\n(exit code: "@ + signed_decimal_spec(self.exit_code as int) + ")"@
        } else {
            b
        }
    }

    /// The text shown for this output (`Display`).
    pub fn render(&self) -> (r: String)
        ensures
            r@ == self.render_spec(),
    {
        let out_empty = self.stdout.unicode_len() == 0;
        let err_empty = self.stderr.unicode_len() == 0;
        let mut r = String::new();
        if !out_empty {
            r.append(self.stdout.as_str());
        }
        if !err_empty {
            if !out_empty {
                r.append("\n");
            }
            r.append("stderr: ");
            r.append(self.stderr.as_str());
        }
        if self.exit_code != 0 {
            r.append("\n(exit code: ");
            let c = fmt_i64(self.exit_code as i64);
            r.append(c.as_str());
            r.append(")");
        }
        proof {
            if out_empty {
                assert(self.stdout@ =~= Seq::<char>::empty());
            }
        }
        r
    }
}

/// The note that a non-zero exit code adds: `\n(exit code: N)`.
pub open spec fn exit_note(code: i32) -> Seq<char> {
    "\n(exit code: "@ + signed_decimal_spec(code as int) + ")"@
}

/// What the model sees of a command's output: stdout comes first; a
/// non-zero exit code always shows at the very end, whatever the command
/// printed; with exit code 0 the text ends with stderr under a `stderr: `
/// label when there is any, and is stdout alone otherwise.
pub proof fn bash_render_law(o: BashOutput)
    ensures
        o.render_spec().take(o.stdout@.len() as int) == o.stdout@,
        o.exit_code != 0 ==> ({
            let r = o.render_spec();
            let n = exit_note(o.exit_code);
            r.len() >= n.len() && r.skip(r.len() - n.len()) == n
        }),
        o.exit_code == 0 && o.stderr@.len() > 0 ==> ({
            let r = o.render_spec();
            let e = "stderr: "@ + o.stderr@;
            r.len() >= e.len() && r.skip(r.len() - e.len()) == e
        }),
        o.exit_code == 0 && o.stderr@.len() == 0 ==> o.render_spec() == o.stdout@,
        o.stdout@.len() > 0 && o.stderr@.len() > 0 ==> o.render_spec().len() > o.stdout@.len()
            && o.render_spec()[o.stdout@.len() as int] == '\n',
{
    let out = o.stdout@;
    let err = o.stderr@;
    let b = if err.len() > 0 {
        (if out.len() > 0 {
            out + "\n"@
        } else {
            out
        }) + "stderr: "@ + err
    } else {
        out
    };
    assert(b.take(out.len() as int) =~= out);
    if out.len() > 0 && err.len() > 0 {
        reveal_strlit("\n");
        assert(b[out.len() as int] == '\n');
    }
    let r = o.render_spec();
    if o.exit_code != 0 {
        let n = exit_note(o.exit_code);
        assert(r == b + n);
        assert(r.skip(r.len() - n.len()) =~= n);
        assert(r.take(out.len() as int) =~= b.take(out.len() as int));
        if out.len() > 0 && err.len() > 0 {
            assert(r[out.len() as int] == b[out.len() as int]);
        }
    } else {
        assert(r == b);
        if err.len() > 0 {
            let e = "stderr: "@ + err;
            assert(r.skip(r.len() - e.len()) =~= e);
        }
    }
}

impl BashError {
    /// The error's text.
    pub open spec fn message_of(&self) -> Seq<char> {
        match self {
            BashError::ExecutionFailed(e) => "Command execution failed: "@ + e@,
            BashError::Timeout(t) => "Command timed out after "@ + decimal_spec(*t as nat)
                + " seconds"@,
        }
    }

    /// The error's text.
    pub fn message(&self) -> (m: String)
        ensures
            m@ == self.message_of(),
    {
        match self {
            BashError::ExecutionFailed(e) => concat2("Command execution failed: ", e.as_str()),
            BashError::Timeout(t) => {
                let mut m = "Command timed out after ".to_owned();
                let d = fmt_u64(*t);
                m.append(d.as_str());
                m.append(" seconds");
                m
            },
        }
    }
}

// ---------------------------------------------------------------------------
// The read_file tool
// ---------------------------------------------------------------------------

/// Tool for reading file contents.
pub struct ReadFileTool {
    pub cwd: String,
}

/// Arguments of the read_file tool.
pub struct ReadFileArgs {
    /// Path to the file (absolute or relative to working directory).
    pub path: String,
    /// Line offset to start reading from (0-based).
    pub offset: Option<usize>,
    /// Maximum number of lines to read.
    pub limit: Option<usize>,
}

/// The lines read, numbered, and how many lines the file has.
pub struct ReadFileOutput {
    pub content: String,
    pub lines: usize,
}

impl ReadFileTool {
    /// How the read_file tool is announced to the model.
    pub fn definition(&self) -> (r: ToolSpec)
        ensures
            r.name@ == "read_file"@,
            r.description@
                == "Read the contents of a file. Returns the file content with line numbers."@,
            r.parameters.view() == read_file_parameters_view(),
    {
        let path = property("string", "Path to the file (absolute or relative to working directory)");
        let offset = property("integer", "Line offset to start reading from (0-based)");
        let limit = property("integer", "Maximum number of lines to read");
        let ghost (pv, ov, lv) = (path.view(), offset.view(), limit.view());
        let mut members: Vec<(String, JsonValue)> = Vec::new();
        members.push(("path".to_owned(), path));
        members.push(("offset".to_owned(), offset));
        members.push(("limit".to_owned(), limit));
        let properties = JsonValue::Object(members);
        assert(properties.view()->Object_0 =~= seq![
            ("path"@, pv),
            ("offset"@, ov),
            ("limit"@, lv),
        ]);
        ToolSpec {
            name: "read_file".to_owned(),
            description: "Read the contents of a file. Returns the file content with line numbers."
                .to_owned(),
            parameters: object_schema(properties, "path"),
        }
    }
}

/// Why a file could not be read.
pub enum FileError {
    NotFound(String),
    PermissionDenied(String),
    Io(String),
}

/// How reading a file failed.
pub enum ReadFailure {
    NotFound,
    PermissionDenied,
    Other,
}

impl FileError {
    /// The error's text.
    pub open spec fn message_of(&self) -> Seq<char> {
        match self {
            FileError::NotFound(p) => "File not found: "@ + p@,
            FileError::PermissionDenied(p) => "Permission denied: "@ + p@,
            FileError::Io(e) => "IO error: "@ + e@,
        }
    }

    /// The error's text.
    pub fn message(&self) -> (m: String)
        ensures
            m@ == self.message_of(),
    {
        match self {
            FileError::NotFound(p) => concat2("File not found: ", p.as_str()),
            FileError::PermissionDenied(p) => concat2("Permission denied: ", p.as_str()),
            FileError::Io(e) => concat2("IO error: ", e.as_str()),
        }
    }
}

/// The tool's error for a failed read of `path` (`detail` is the I/O
/// error's text): missing files and refused permissions name the path.
pub fn file_error(failure: ReadFailure, path: String, detail: String) -> (r: FileError)
    ensures
        match failure {
            ReadFailure::NotFound => (r matches FileError::NotFound(p) && p@ == path@),
            ReadFailure::PermissionDenied => (r matches FileError::PermissionDenied(p) && p@
                == path@),
            ReadFailure::Other => (r matches FileError::Io(e) && e@ == detail@),
        },
{
    match failure {
        ReadFailure::NotFound => FileError::NotFound(path),
        ReadFailure::PermissionDenied => FileError::PermissionDenied(path),
        ReadFailure::Other => FileError::Io(detail),
    }
}

/// The file a path names: an absolute path as is, a relative one under the
/// working directory.
pub fn resolve_path(cwd: &str, path: &str) -> (r: String)
    ensures
        r@ == (if path@.len() > 0 && path@[0] == '/' {
            path@
        } else {
            join_path_spec(cwd@, path@)
        }),
{
    let pc = chars_of(path);
    if pc.len() > 0 && pc[0] == '/' {
        owned(path)
    } else {
        join_path(cwd, path)
    }
}

/// Index of the first `c` in `s` at or after `from`.
pub open spec fn index_of_from(s: Seq<char>, c: char, from: int) -> Option<int>
    decreases s.len() - from,
{
    if from < 0 || from >= s.len() {
        None
    } else if s[from] == c {
        Some(from)
    } else {
        index_of_from(s, c, from + 1)
    }
}

/// A line without the carriage return of a `\r\n` ending.
pub open spec fn strip_cr(s: Seq<char>) -> Seq<char> {
    if s.len() > 0 && s.last() == '\r' {
        s.drop_last()
    } else {
        s
    }
}

proof fn lemma_index_of_bounds(s: Seq<char>, c: char, from: int)
    ensures
        index_of_from(s, c, from) matches Some(k) ==> from <= k < s.len() && s[k] == c,
    decreases s.len() - from,
{
    if 0 <= from < s.len() && s[from] != c {
        lemma_index_of_bounds(s, c, from + 1);
    }
}

/// The lines of a text (`str::lines`): split at `\n`, a `\r` before the
/// `\n` dropped, and no empty line after a final line ending.
pub open spec fn lines_spec(s: Seq<char>) -> Seq<Seq<char>>
    decreases s.len(),
{
    if s.len() == 0 {
        Seq::empty()
    } else {
        match index_of_from(s, '\n', 0) {
            None => seq![s],
            Some(i) => if 0 <= i < s.len() {
                seq![strip_cr(s.take(i))] + lines_spec(s.skip(i + 1))
            } else {
                seq![s]
            },
        }
    }
}

proof fn lemma_index_of_shift(s: Seq<char>, c: char, i: int, j: int)
    requires
        0 <= i <= s.len(),
        0 <= j,
    ensures
        index_of_from(s.skip(i), c, j) == (match index_of_from(s, c, i + j) {
            Some(k) => Some(k - i),
            None => None,
        }),
    decreases s.len() - i - j,
{
    if i + j < s.len() {
        assert(s.skip(i)[j] == s[i + j]);
        if s[i + j] != c {
            lemma_index_of_shift(s, c, i, j + 1);
        }
    }
}

/// The lines of a text (`str::lines`).
pub fn split_lines(s: &str) -> (r: Vec<String>)
    ensures
        crate::text::views(r@) == lines_spec(s@),
{
    let cs = chars_of(s);
    let mut done: Vec<String> = Vec::new();
    let mut i: usize = 0;
    assert(cs@.skip(0) =~= cs@);
    while i < cs.len()
        invariant
            cs@ == s@,
            i <= cs@.len(),
            lines_spec(cs@) == crate::text::views(done@) + lines_spec(cs@.skip(i as int)),
        decreases cs@.len() - i,
    {
        let ghost t = cs@.skip(i as int);
        let ghost before = crate::text::views(done@);
        proof {
            lemma_index_of_shift(cs@, '\n', i as int, 0);
            lemma_index_of_bounds(cs@, '\n', i as int);
        }
        let mut j = i;
        while j < cs.len() && cs[j] != '\n'
            invariant
                i <= j <= cs@.len(),
                index_of_from(cs@, '\n', i as int) == index_of_from(cs@, '\n', j as int),
            decreases cs@.len() - j,
        {
            j = j + 1;
        }
        if j == cs.len() {
            let line = crate::text::string_of_range(cs.as_slice(), i, j);
            assert(line@ =~= t);
            done.push(line);
            assert(crate::text::views(done@) =~= before.push(t));
            assert(cs@.skip(j as int) =~= Seq::<char>::empty());
            assert(before + lines_spec(t) =~= crate::text::views(done@) + lines_spec(
                cs@.skip(j as int),
            ));
            i = j;
        } else {
            let end = if j > i && cs[j - 1] == '\r' {
                j - 1
            } else {
                j
            };
            let line = crate::text::string_of_range(cs.as_slice(), i, end);
            assert(t.take((j - i) as int) =~= cs@.subrange(i as int, j as int));
            assert(line@ =~= strip_cr(t.take((j - i) as int)));
            assert(t.skip((j - i) + 1) =~= cs@.skip(j + 1));
            done.push(line);
            assert(crate::text::views(done@) =~= before.push(line@));
            assert(before + lines_spec(t) =~= crate::text::views(done@) + lines_spec(
                cs@.skip(j + 1),
            ));
            i = j + 1;
        }
    }
    assert(cs@.skip(i as int) =~= Seq::<char>::empty());
    assert(crate::text::views(done@) + Seq::<Seq<char>>::empty() =~= crate::text::views(done@));
    done
}

/// Lines joined with `\n` between them.
pub open spec fn join_lines(xs: Seq<Seq<char>>) -> Seq<char>
    decreases xs.len(),
{
    if xs.len() == 0 {
        Seq::empty()
    } else if xs.len() == 1 {
        xs[0]
    } else {
        join_lines(xs.drop_last()) + "\n"@ + xs.last()
    }
}

/// Line `line`, numbered `n`: the number right-aligned in four columns, a tab,
/// then the line.
pub open spec fn numbered_line(n: nat, line: Seq<char>) -> Seq<char> {
    pad_left_spec(decimal_spec(n), 4) + "\t"@ + line
}

/// Default number of lines read.
pub const DEFAULT_READ_LIMIT: usize = 2000;

/// What the tool returns for a file's text: the lines from `offset` (default
/// 0), at most `limit` of them (default 2000), each numbered from 1 for the
/// file's first line, joined with newlines; and the file's total line count.
pub open spec fn read_output_spec(text: Seq<char>, offset: Option<usize>, limit: Option<usize>) -> (
    Seq<char>,
    nat,
) {
    let ls = lines_spec(text);
    let off: nat = match offset {
        Some(o) => o as nat,
        None => 0,
    };
    let lim: nat = match limit {
        Some(l) => l as nat,
        None => DEFAULT_READ_LIMIT as nat,
    };
    let start: nat = if off <= ls.len() {
        off
    } else {
        ls.len()
    };
    let stop: nat = if start + lim <= ls.len() {
        start + lim
    } else {
        ls.len()
    };
    let sel = Seq::new(
        (stop - start) as nat,
        |i: int| numbered_line((start + i + 1) as nat, ls[start + i]),
    );
    (join_lines(sel), ls.len())
}

/// The tool's output for a file's text.
pub fn number_lines(text: &str, offset: Option<usize>, limit: Option<usize>) -> (r:
    ReadFileOutput)
    ensures
        (r.content@, r.lines as nat) == read_output_spec(text@, offset, limit),
{
    let lines = split_lines(text);
    let ghost ls = crate::text::views(lines@);
    let total = lines.len();
    let off = match offset {
        Some(o) => o,
        None => 0,
    };
    let lim = match limit {
        Some(l) => l,
        None => DEFAULT_READ_LIMIT,
    };
    let start = if off <= total {
        off
    } else {
        total
    };
    let stop = if lim <= total - start {
        start + lim
    } else {
        total
    };
    let ghost sel = Seq::new(
        (stop - start) as nat,
        |i: int| numbered_line((start + i + 1) as nat, ls[start + i]),
    );
    let mut content = String::new();
    let mut k: usize = start;
    while k < stop
        invariant
            ls == crate::text::views(lines@),
            ls == lines_spec(text@),
            start <= k <= stop <= total,
            total == lines@.len(),
            sel == Seq::new(
                (stop - start) as nat,
                |i: int| numbered_line((start + i + 1) as nat, ls[start + i]),
            ),
            content@ == join_lines(sel.take(k - start)),
        decreases stop - k,
    {
        let n = fmt_u64((k + 1) as u64);
        let mut line = pad_left(n.as_str(), 4);
        line.append("\t");
        line.append(lines[k].as_str());
        assert(line@ == sel[k - start]);
        let ghost prev = content@;
        if k > start {
            content.append("\n");
        }
        content.append(line.as_str());
        proof {
            let t = sel.take(k - start + 1);
            assert(t.drop_last() =~= sel.take(k - start));
            assert(t.last() == sel[k - start]);
            if k == start {
                assert(sel.take(0) =~= Seq::<Seq<char>>::empty());
                assert(content@ =~= line@);
            }
        }
        k = k + 1;
    }
    assert(sel.take(stop - start) =~= sel);
    ReadFileOutput { content, lines: total }
}

// ---------------------------------------------------------------------------
// How many lines the read_file tool returns
// ---------------------------------------------------------------------------

/// The number of newline characters in `s`.
pub open spec fn count_newlines(s: Seq<char>) -> nat
    decreases s.len(),
{
    if s.len() == 0 {
        0
    } else {
        (if s.last() == '\n' {
            1nat
        } else {
            0nat
        }) + count_newlines(s.drop_last())
    }
}

proof fn lemma_count_concat(a: Seq<char>, b: Seq<char>)
    ensures
        count_newlines(a + b) == count_newlines(a) + count_newlines(b),
    decreases b.len(),
{
    if b.len() == 0 {
        assert(a + b =~= a);
    } else {
        assert((a + b).drop_last() =~= a + b.drop_last());
        assert((a + b).last() == b.last());
        lemma_count_concat(a, b.drop_last());
    }
}

proof fn lemma_count_none(s: Seq<char>)
    requires
        forall|i: int| 0 <= i < s.len() ==> s[i] != '\n',
    ensures
        count_newlines(s) == 0,
    decreases s.len(),
{
    if s.len() > 0 {
        assert(s.last() == s[s.len() - 1]);
        lemma_count_none(s.drop_last());
    }
}

proof fn lemma_index_of_gap(s: Seq<char>, c: char, from: int)
    requires
        0 <= from,
    ensures
        index_of_from(s, c, from) matches Some(k) ==> forall|j: int| from <= j < k ==> s[j] != c,
        index_of_from(s, c, from) is None ==> forall|j: int| from <= j < s.len() ==> s[j] != c,
    decreases s.len() - from,
{
    if from < s.len() && s[from] != c {
        lemma_index_of_gap(s, c, from + 1);
    }
}

proof fn lemma_lines_no_newline(s: Seq<char>)
    ensures
        forall|k: int, i: int|
            0 <= k < lines_spec(s).len() && 0 <= i < lines_spec(s)[k].len() ==> #[trigger] lines_spec(
                s,
            )[k][i] != '\n',
    decreases s.len(),
{
    if s.len() > 0 {
        lemma_index_of_gap(s, '\n', 0);
        match index_of_from(s, '\n', 0) {
            None => {
                assert(lines_spec(s) == seq![s]);
                assert forall|k: int, i: int|
                    0 <= k < lines_spec(s).len() && 0 <= i < lines_spec(s)[k].len() implies #[trigger] lines_spec(
                        s,
                    )[k][i] != '\n' by {
                    assert(lines_spec(s)[k] == s);
                }
            },
            Some(p) => {
                lemma_index_of_bounds(s, '\n', 0);
                if 0 <= p < s.len() {
                    lemma_lines_no_newline(s.skip(p + 1));
                    let head = strip_cr(s.take(p));
                    let ls = lines_spec(s);
                    assert(ls == seq![head] + lines_spec(s.skip(p + 1)));
                    assert forall|k: int, i: int|
                        0 <= k < ls.len() && 0 <= i < ls[k].len() implies #[trigger] ls[k][i]
                        != '\n' by {
                        if k == 0 {
                            assert(ls[0] == head);
                            assert(head[i] == s[i]);
                        } else {
                            assert(ls[k] == lines_spec(s.skip(p + 1))[k - 1]);
                        }
                    }
                }
            },
        }
    }
}

proof fn lemma_decimal_no_newline(n: nat)
    ensures
        forall|i: int| 0 <= i < decimal_spec(n).len() ==> #[trigger] decimal_spec(n)[i] != '\n',
    decreases n,
{
    if n < 10 {
        assert(((n + 48) as u8) as char != '\n');
    } else {
        lemma_decimal_no_newline(n / 10);
        let d = n % 10;
        assert(((d + 48) as u8) as char != '\n');
        assert forall|i: int| 0 <= i < decimal_spec(n).len() implies #[trigger] decimal_spec(n)[i]
            != '\n' by {
            if i < decimal_spec(n / 10).len() {
                assert(decimal_spec(n)[i] == decimal_spec(n / 10)[i]);
            }
        }
    }
}

proof fn lemma_numbered_line(n: nat, line: Seq<char>)
    requires
        forall|i: int| 0 <= i < line.len() ==> line[i] != '\n',
    ensures
        count_newlines(numbered_line(n, line)) == 0,
        numbered_line(n, line).len() > 0,
{
    lemma_decimal_no_newline(n);
    let d = decimal_spec(n);
    let p = pad_left_spec(d, 4);
    assert forall|i: int| 0 <= i < p.len() implies p[i] != '\n' by {
        if d.len() < 4 {
            if i >= 4 - d.len() {
                assert(p[i] == d[i - (4 - d.len())]);
            }
        }
    }
    let s = numbered_line(n, line);
    reveal_strlit("\t");
    assert("\t"@.len() == 1);
    assert("\t"@[0] == '\t');
    assert(s == p + "\t"@ + line);
    assert forall|i: int| 0 <= i < s.len() implies s[i] != '\n' by {
        if i < p.len() {
            assert(s[i] == p[i]);
        } else if i == p.len() {
            assert(s[i] == '\t');
        } else {
            assert(s[i] == line[i - p.len() - 1]);
        }
    }
    lemma_count_none(s);
}

proof fn lemma_join_count(xs: Seq<Seq<char>>)
    requires
        forall|k: int| 0 <= k < xs.len() ==> count_newlines(#[trigger] xs[k]) == 0 && xs[k].len() > 0,
    ensures
        xs.len() == 0 <==> join_lines(xs).len() == 0,
        xs.len() > 0 ==> count_newlines(join_lines(xs)) + 1 == xs.len(),
    decreases xs.len(),
{
    reveal_strlit("\n");
    if xs.len() > 1 {
        let init = xs.drop_last();
        assert forall|k: int| 0 <= k < init.len() implies count_newlines(#[trigger] init[k]) == 0
            && init[k].len() > 0 by {
            assert(init[k] == xs[k]);
        }
        lemma_join_count(init);
        assert(xs.last() == xs[xs.len() - 1]);
        lemma_count_concat(join_lines(init), "\n"@);
        lemma_count_concat(join_lines(init) + "\n"@, xs.last());
        assert("\n"@.len() == 1);
        assert("\n"@[0] == '\n');
        assert("\n"@.last() == '\n');
        assert("\n"@.drop_last() =~= Seq::<char>::empty());
        assert(count_newlines(Seq::<char>::empty()) == 0);
        assert(count_newlines("\n"@) == 1);
    } else if xs.len() == 1 {
        assert(xs[0] == xs[xs.len() - 1]);
    }
}

proof fn lemma_join_first(xs: Seq<Seq<char>>)
    requires
        xs.len() > 0,
    ensures
        join_lines(xs).len() >= xs[0].len(),
        join_lines(xs).take(xs[0].len() as int) == xs[0],
    decreases xs.len(),
{
    if xs.len() == 1 {
        assert(join_lines(xs) == xs[0]);
        assert(xs[0].take(xs[0].len() as int) =~= xs[0]);
    } else {
        let init = xs.drop_last();
        lemma_join_first(init);
        assert(init[0] == xs[0]);
        let j = join_lines(xs);
        assert(j == join_lines(init) + "\n"@ + xs.last());
        assert(j.take(xs[0].len() as int) =~= join_lines(init).take(xs[0].len() as int));
    }
}

/// The read_file tool returns exactly the lines asked for: with `o` the
/// offset (0 when absent), `l` the limit (2000 when absent) and `total` the
/// file's line count, the content holds `min(l, total - o)` lines (none when
/// `o` is past the end), which is to say one newline fewer than that, and is
/// empty exactly when no line is selected.
pub proof fn read_file_line_count_law(text: Seq<char>, offset: Option<usize>, limit: Option<usize>)
    ensures
        ({
            let (content, total) = read_output_spec(text, offset, limit);
            let o: int = match offset {
                Some(v) => v as int,
                None => 0,
            };
            let l: int = match limit {
                Some(v) => v as int,
                None => 2000,
            };
            let expected: int = if o > total {
                0
            } else if l < total - o {
                l
            } else {
                total - o
            };
            &&& total == lines_spec(text).len()
            &&& (expected == 0 <==> content.len() == 0)
            &&& (expected > 0 ==> count_newlines(content) + 1 == expected)
            &&& (expected > 0 ==> {
                let first = pad_left_spec(decimal_spec((o + 1) as nat), 4) + "\t"@;
                content.len() >= first.len() && content.take(first.len() as int) == first
            })
        }),
{
    let ls = lines_spec(text);
    lemma_lines_no_newline(text);
    let off: nat = match offset {
        Some(o) => o as nat,
        None => 0,
    };
    let lim: nat = match limit {
        Some(l) => l as nat,
        None => DEFAULT_READ_LIMIT as nat,
    };
    let start: nat = if off <= ls.len() {
        off
    } else {
        ls.len()
    };
    let stop: nat = if start + lim <= ls.len() {
        start + lim
    } else {
        ls.len()
    };
    let sel = Seq::new(
        (stop - start) as nat,
        |i: int| numbered_line((start + i + 1) as nat, ls[start + i]),
    );
    assert forall|k: int| 0 <= k < sel.len() implies count_newlines(#[trigger] sel[k]) == 0
        && sel[k].len() > 0 by {
        let line = ls[start + k];
        assert forall|i: int| 0 <= i < line.len() implies line[i] != '\n' by {
            assert(ls[start + k][i] != '\n');
        }
        lemma_numbered_line((start + k + 1) as nat, line);
    }
    lemma_join_count(sel);
    if sel.len() > 0 {
        lemma_join_first(sel);
        let first = pad_left_spec(decimal_spec((off + 1) as nat), 4) + "\t"@;
        assert(start == off);
        assert(sel[0] == numbered_line((off + 1) as nat, ls[start as int]));
        assert(sel[0].take(first.len() as int) =~= first);
        let content = join_lines(sel);
        assert(content.take(first.len() as int) =~= content.take(sel[0].len() as int).take(
            first.len() as int,
        ));
    }
}

} // verus!
