//! What each tool does with its arguments, up to the file or process work, and the reply
//! it gives once that work is done.
use vstd::prelude::*;
use crate::arguments::{arg_text, entries_view, lookup_entry, EntryView, ToolArguments};
use crate::arguments::{json_quoted, json_string_literal};
use crate::text::string_push;
use crate::tooling::ToolHandler;

verus! {

/// The work a tool call asks for, or the reply when its arguments do not allow any.
#[derive(Debug)]
pub enum ToolRequest {
    /// Nothing to do: answer with this text.
    Reply(String),
    /// Read the file at `path`.
    ReadFile { path: String },
    /// Write `content` to the file at `path`.
    WriteFile { path: String, content: String },
    /// Read the file reached by pushing `components`, in order, onto the working directory.
    ReadSkillFile { components: Vec<String> },
    /// Run `program` with `arguments`, the output captured and no input given.
    RunCommand { program: String, arguments: Vec<String> },
}

/// The reply when a required argument is missing.
pub open spec fn missing_argument(name: Seq<char>) -> Seq<char> {
    "Missing '"@ + name + "' argument"@
}

/// The views of a list of texts.
pub open spec fn strings_view(v: Seq<String>) -> Seq<Seq<char>> {
    Seq::new(v.len(), |i: int| v[i]@)
}

/// What a call of `handler` with `arguments` asks for:
/// - `Read` reads the file named by the string `file_path`;
/// - `Write` writes the string `content` to the file named by the string `file_path`;
/// - `ReadSkill` reads `.skills/<skill_name>/SKILL.md` without a `reference_path`; with the
///   string `reference_path`, `.skills/<skill_name>/<reference_path>`; with a
///   `reference_path` of another kind, `.skills/<skill_name>/references/<its JSON text>`;
/// - `Bash` hands the whole string `command` to the shell: `sh -c <command>`;
/// and each replies that an argument is missing when one it needs is not a string.
pub open spec fn request_matches(handler: ToolHandler, arguments: Seq<EntryView>, request: ToolRequest) -> bool {
    match handler {
        ToolHandler::Read => match arg_text(arguments, "file_path"@) {
            Some(path) => request matches ToolRequest::ReadFile { path: p } && p@ == path,
            None => request matches ToolRequest::Reply(r) && r@ == missing_argument("file_path"@),
        },
        ToolHandler::Write => match arg_text(arguments, "file_path"@) {
            Some(path) => match arg_text(arguments, "content"@) {
                Some(content) => request matches ToolRequest::WriteFile { path: p, content: c }
                    && p@ == path && c@ == content,
                None => request matches ToolRequest::Reply(r) && r@ == missing_argument("content"@),
            },
            None => request matches ToolRequest::Reply(r) && r@ == missing_argument("file_path"@),
        },
        ToolHandler::ReadSkill => match arg_text(arguments, "skill_name"@) {
            Some(name) => match lookup_entry(arguments, "reference_path"@) {
                None => request matches ToolRequest::ReadSkillFile { components: c }
                    && strings_view(c@) == seq![".skills"@, name, "SKILL.md"@],
                Some(entry) => match entry.1 {
                    Some(reference) => request matches ToolRequest::ReadSkillFile { components: c }
                        && strings_view(c@) == seq![".skills"@, name, reference],
                    None => request matches ToolRequest::ReadSkillFile { components: c }
                        && strings_view(c@) == seq![".skills"@, name, "references"@, entry.2],
                },
            },
            None => request matches ToolRequest::Reply(r) && r@ == missing_argument("skill_name"@),
        },
        ToolHandler::Bash => match arg_text(arguments, "command"@) {
            Some(command) => request matches ToolRequest::RunCommand { program: p, arguments: a }
                && p@ == "sh"@ && strings_view(a@) == seq!["-c"@, command],
            None => request matches ToolRequest::Reply(r) && r@ == missing_argument("command"@),
        },
    }
}

fn missing(name: &str) -> (reply: ToolRequest)
    ensures
        reply matches ToolRequest::Reply(r) && r@ == missing_argument(name@),
{
    let mut r = String::from_str("Missing '");
    r.append(name);
    r.append("' argument");
    ToolRequest::Reply(r)
}

/// What the `Read` tool asks for: the file named by the string `file_path`.
pub fn read_handler(arguments: &ToolArguments) -> (request: ToolRequest)
    requires
        arguments.wf(),
    ensures
        request_matches(ToolHandler::Read, entries_view(arguments.entries@), request),
{
    match arguments.get_str("file_path") {
        Some(path) => ToolRequest::ReadFile { path },
        None => missing("file_path"),
    }
}

/// What the `Write` tool asks for: the string `content` written to the file named by the
/// string `file_path`.
pub fn write_handler(arguments: &ToolArguments) -> (request: ToolRequest)
    requires
        arguments.wf(),
    ensures
        request_matches(ToolHandler::Write, entries_view(arguments.entries@), request),
{
    match arguments.get_str("file_path") {
        Some(path) => match arguments.get_str("content") {
            Some(content) => ToolRequest::WriteFile { path, content },
            None => missing("content"),
        },
        None => missing("file_path"),
    }
}

/// What the `ReadSkill` tool asks for: the skill's `SKILL.md`, the file at the string
/// `reference_path` within the skill's folder, or, for a `reference_path` that is not a
/// string, the file under `references` named by its JSON text.
pub fn read_skill_handler(arguments: &ToolArguments) -> (request: ToolRequest)
    requires
        arguments.wf(),
    ensures
        request_matches(ToolHandler::ReadSkill, entries_view(arguments.entries@), request),
{
    match arguments.get_str("skill_name") {
        Some(name) => {
            let mut components: Vec<String> = Vec::new();
            components.push(String::from_str(".skills"));
            components.push(name);
            match arguments.get("reference_path") {
                Some(entry) => match &entry.text {
                    Some(reference) => {
                        components.push(reference.clone());
                        assert(strings_view(components@) =~= seq![".skills"@, components@[1]@, components@[2]@]);
                    },
                    None => {
                        components.push(String::from_str("references"));
                        components.push(entry.json.clone());
                        assert(strings_view(components@) =~= seq![
                            ".skills"@,
                            components@[1]@,
                            "references"@,
                            components@[3]@,
                        ]);
                    },
                },
                None => {
                    components.push(String::from_str("SKILL.md"));
                    assert(strings_view(components@) =~= seq![".skills"@, components@[1]@, components@[2]@]);
                },
            }
            ToolRequest::ReadSkillFile { components }
        },
        None => missing("skill_name"),
    }
}

/// What the `Bash` tool asks for: the shell run on the whole string `command`.
pub fn bash(arguments: &ToolArguments) -> (request: ToolRequest)
    requires
        arguments.wf(),
    ensures
        request_matches(ToolHandler::Bash, entries_view(arguments.entries@), request),
{
    match arguments.get_str("command") {
        Some(command) => {
            let mut shell_arguments: Vec<String> = Vec::new();
            shell_arguments.push(String::from_str("-c"));
            shell_arguments.push(command);
            assert(strings_view(shell_arguments@) =~= seq!["-c"@, shell_arguments@[1]@]);
            ToolRequest::RunCommand { program: String::from_str("sh"), arguments: shell_arguments }
        },
        None => missing("command"),
    }
}

/// Works out what a call of `handler` with `arguments` asks for.
pub fn plan_tool_call(handler: ToolHandler, arguments: &ToolArguments) -> (request: ToolRequest)
    requires
        arguments.wf(),
    ensures
        request_matches(handler, entries_view(arguments.entries@), request),
{
    match handler {
        ToolHandler::Read => read_handler(arguments),
        ToolHandler::Write => write_handler(arguments),
        ToolHandler::ReadSkill => read_skill_handler(arguments),
        ToolHandler::Bash => bash(arguments),
    }
}

/// The reply of `Read` and `ReadSkill`: the file's text, or the error that reading gave.
pub open spec fn read_reply_spec(result: Result<String, String>) -> Seq<char> {
    match result {
        Ok(content) => content@,
        Err(error) => "Error reading file: "@ + error@,
    }
}

/// The reply of `Read` and `ReadSkill` once the file was read (or not).
pub fn read_reply(result: Result<String, String>) -> (reply: String)
    ensures
        reply@ == read_reply_spec(result),
{
    match result {
        Ok(content) => content,
        Err(error) => {
            let mut r = String::from_str("Error reading file: ");
            r.append(error.as_str());
            r
        },
    }
}

/// The reply of `Write`: success names the file, failure gives the error.
pub open spec fn write_reply_spec(path: Seq<char>, result: Result<(), String>) -> Seq<char> {
    match result {
        Ok(_) => "Successfully wrote to file: "@ + path,
        Err(error) => "Error writing to file: "@ + error@,
    }
}

/// The reply of `Write` once the file was written (or not).
pub fn write_reply(path: &str, result: Result<(), String>) -> (reply: String)
    ensures
        reply@ == write_reply_spec(path@, result),
{
    match result {
        Ok(_) => {
            let mut r = String::from_str("Successfully wrote to file: ");
            r.append(path);
            r
        },
        Err(error) => {
            let mut r = String::from_str("Error writing to file: ");
            r.append(error.as_str());
            r
        },
    }
}

/// The character of the decimal digit `d` (below 10).
pub open spec fn decimal_digit(d: nat) -> char {
    (('0' as u32) + d) as char
}

/// The decimal digits of `n`, most significant first, without leading zeros.
pub open spec fn decimal_digits(n: nat) -> Seq<char>
    decreases n,
{
    if n < 10 {
        seq![decimal_digit(n)]
    } else {
        decimal_digits(n / 10).push(decimal_digit(n % 10))
    }
}

/// `n` written in decimal, with a minus sign when it is negative.
pub open spec fn decimal_text(n: int) -> Seq<char> {
    if n < 0 {
        seq!['-'] + decimal_digits((-n) as nat)
    } else {
        decimal_digits(n as nat)
    }
}

/// The report of a command as the model gets it: the compact JSON object
/// `{"exit_code":..,"stderr":..,"stdout":..,"success":..}`, its members in key order as
/// `serde_json` writes an object; the exit code is `null` when there is none.
pub open spec fn command_report_text(success: bool, exit_code: Option<i32>, stdout: Seq<char>, stderr: Seq<char>) -> Seq<char> {
    "{\"exit_code\":"@ + match exit_code {
        Some(code) => decimal_text(code as int),
        None => "null"@,
    } + ",\"stderr\":"@ + json_quoted(stderr) + ",\"stdout\":"@ + json_quoted(stdout)
        + ",\"success\":"@ + (if success {
        "true"@
    } else {
        "false"@
    }) + "}"@
}

fn digit_char(d: u64) -> (c: char)
    requires
        d < 10,
    ensures
        c == decimal_digit(d as nat),
{
    if d == 0 { '0' } else if d == 1 { '1' } else if d == 2 { '2' } else if d == 3 { '3' }
    else if d == 4 { '4' } else if d == 5 { '5' } else if d == 6 { '6' } else if d == 7 { '7' }
    else if d == 8 { '8' } else { '9' }
}

fn push_digits(out: &mut String, n: u64)
    ensures
        final(out)@ == old(out)@ + decimal_digits(n as nat),
    decreases n,
{
    let ghost start = out@;
    if n >= 10 {
        push_digits(out, n / 10);
    }
    string_push(out, digit_char(n % 10));
    proof {
        if n >= 10 {
            assert(out@ =~= start + decimal_digits((n / 10) as nat).push(decimal_digit((n % 10) as nat)));
        } else {
            assert(out@ =~= start + decimal_digits(n as nat));
        }
    }
}

fn push_decimal(out: &mut String, n: i64)
    ensures
        final(out)@ == old(out)@ + decimal_text(n as int),
{
    if n < 0 {
        let ghost start = out@;
        string_push(out, '-');
        let magnitude: u64 = (0i128 - (n as i128)) as u64;
        push_digits(out, magnitude);
        assert(out@ =~= start + (seq!['-'] + decimal_digits((-n) as nat)));
    } else {
        push_digits(out, n as u64);
    }
}

/// Reports how a command ended: whether it succeeded, its exit code (none when a signal
/// ended it) and its output.
pub fn command_report(success: bool, exit_code: Option<i32>, stdout: &str, stderr: &str) -> (report: String)
    ensures
        report@ == command_report_text(success, exit_code, stdout@, stderr@),
{
    let mut r = String::from_str("{\"exit_code\":");
    match exit_code {
        Some(code) => push_decimal(&mut r, code as i64),
        None => r.append("null"),
    }
    r.append(",\"stderr\":");
    let quoted_stderr = json_string_literal(stderr);
    r.append(quoted_stderr.as_str());
    r.append(",\"stdout\":");
    let quoted_stdout = json_string_literal(stdout);
    r.append(quoted_stdout.as_str());
    r.append(",\"success\":");
    if success {
        r.append("true");
    } else {
        r.append("false");
    }
    r.append("}");
    r
}

/// Reports a command that could not be started: not a success, no exit code, no output,
/// and the error as its error output.
pub fn command_failure_report(error: &str) -> (report: String)
    ensures
        report@ == command_report_text(false, None, Seq::empty(), error@),
{
    proof {
        reveal_strlit("");
        assert(""@ =~= Seq::<char>::empty());
    }
    command_report(false, None, "", error)
}

} // verus!
