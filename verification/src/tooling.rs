//! Descriptions of the tools offered to the model, and the registry that maps a tool's
//! name to the handler that runs it.
use vstd::prelude::*;
use crate::assoc::{assoc_get, assoc_insert, keys_distinct, lemma_assoc_get_insert, lemma_assoc_insert, lemma_key_index, has_key};
use crate::arguments::{entries_view, ToolArguments};
use crate::handlers::{plan_tool_call, request_matches, ToolRequest};
use crate::json::{str_json, Json, JsonSpec, json_view, members_view, items_view, lemma_json_view};

verus! {

/// One argument of a tool: its name, its JSON type and what it is for.
pub struct FunctionParametersObjectPropertyObject {
    pub name: String,
    pub value_type: String,
    pub description: String,
}

/// The arguments of a tool.
pub struct FunctionParametersObjectPropertiesObject {
    pub arguments: Vec<FunctionParametersObjectPropertyObject>,
}

/// The parameter schema of a tool: its arguments and which of them are required.
pub struct FunctionParametersObject {
    pub name: String,
    pub properties: FunctionParametersObjectPropertiesObject,
    pub required: Vec<String>,
}

/// The schema of one argument: `{"type": .., "description": ..}`.
pub open spec fn property_json(p: FunctionParametersObjectPropertyObject) -> JsonSpec {
    JsonSpec::Object(
        seq![("type"@, JsonSpec::Str(p.value_type@)), ("description"@, JsonSpec::Str(p.description@))],
    )
}

/// The members of the `properties` object: each argument's schema under its name, set in
/// order, so that of two arguments with one name the later one counts.
pub open spec fn properties_members(args: Seq<FunctionParametersObjectPropertyObject>) -> Seq<
    (Seq<char>, JsonSpec),
>
    decreases args.len(),
{
    if args.len() == 0 {
        Seq::empty()
    } else {
        assoc_insert(properties_members(args.drop_last()), args.last().name@, property_json(args.last()))
    }
}

/// The texts of a list of strings.
pub open spec fn strs_json(items: Seq<String>) -> Seq<JsonSpec> {
    Seq::new(items.len(), |i: int| JsonSpec::Str(items[i]@))
}

/// The parameter schema: `{"type": "object", "properties": .., "required": [..]}`.
pub open spec fn parameters_json(p: FunctionParametersObject) -> JsonSpec {
    JsonSpec::Object(
        seq![
            ("type"@, JsonSpec::Str("object"@)),
            ("properties"@, JsonSpec::Object(properties_members(p.properties.arguments@))),
            ("required"@, JsonSpec::Array(strs_json(p.required@))),
        ],
    )
}

fn copy_string(s: &String) -> (c: String)
    ensures
        c@ == s@,
{
    s.clone()
}

impl FunctionParametersObjectPropertyObject {
    /// The schema of this argument.
    pub fn json(&self) -> (j: Json)
        ensures
            json_view(j) == property_json(*self),
    {
        let mut members: Vec<(String, Json)> = Vec::new();
        members.push((String::from_str("type"), str_json(self.value_type.as_str())));
        members.push((String::from_str("description"), str_json(self.description.as_str())));
        let ghost ms = members@;
        let j = Json::Object(members);
        assert(json_view(j) == property_json(*self)) by {
            lemma_json_view(j);
            assert(ms[0].0@ == "type"@);
            assert(ms[1].0@ == "description"@);
            assert(members_view(ms) =~= seq![("type"@, JsonSpec::Str(self.value_type@)), ("description"@, JsonSpec::Str(self.description@))]);
        }
        j
    }
}

/// The schema of the last argument named `name`, if any.
pub open spec fn last_property(args: Seq<FunctionParametersObjectPropertyObject>, name: Seq<char>) -> Option<JsonSpec>
    decreases args.len(),
{
    if args.len() == 0 {
        None
    } else if args.last().name@ == name {
        Some(property_json(args.last()))
    } else {
        last_property(args.drop_last(), name)
    }
}

/// Each argument name appears once among the properties, with the schema of the last
/// argument of that name; names of no argument do not appear.
pub proof fn law_properties_last_wins(args: Seq<FunctionParametersObjectPropertyObject>, name: Seq<char>)
    ensures
        keys_distinct(properties_members(args)),
        assoc_get(properties_members(args), name) == last_property(args, name),
    decreases args.len(),
{
    if args.len() == 0 {
        assert(!crate::assoc::has_key(properties_members(args), name));
    } else {
        let d = args.drop_last();
        law_properties_last_wins(d, name);
        lemma_assoc_insert(properties_members(d), args.last().name@, property_json(args.last()));
        lemma_assoc_get_insert(properties_members(d), args.last().name@, property_json(args.last()), name);
    }
}

impl FunctionParametersObjectPropertiesObject {
    /// The `properties` object: each argument's schema under its name; of two arguments with
    /// the same name, the later one counts.
    pub fn json(&self) -> (j: Json)
        ensures
            json_view(j) == JsonSpec::Object(properties_members(self.arguments@)),
    {
        let mut members: Vec<(String, Json)> = Vec::new();
        let mut i: usize = 0;
        while i < self.arguments.len()
            invariant
                i <= self.arguments@.len(),
                members_view(members@) == properties_members(self.arguments@.take(i as int)),
                keys_distinct(members_view(members@)),
            decreases self.arguments.len() - i,
        {
            let arg = &self.arguments[i];
            let ghost before = members_view(members@);
            assert(self.arguments@.take(i + 1).drop_last() == self.arguments@.take(i as int));
            proof {
                lemma_assoc_insert(before, arg.name@, property_json(*arg));
            }
            let value = arg.json();
            let mut p: usize = 0;
            while p < members.len() && !(members[p].0 == arg.name)
                invariant
                    p <= members@.len(),
                    forall|q: int| 0 <= q < p ==> members@[q].0@ != arg.name@,
                decreases members.len() - p,
            {
                p = p + 1;
            }
            if p < members.len() {
                members.set(p, (copy_string(&arg.name), value));
                assert(members_view(members@) =~= before.update(p as int, (arg.name@, property_json(*arg))));
            } else {
                members.push((copy_string(&arg.name), value));
                assert forall|q: int| 0 <= q < before.len() implies before[q].0 != arg.name@ by {
                    assert(before[q].0 == members@[q].0@);
                }
                assert(members_view(members@) =~= before.push((arg.name@, property_json(*arg))));
            }
            i = i + 1;
        }
        assert(self.arguments@.take(i as int) == self.arguments@);
        let ghost ms = members@;
        let j = Json::Object(members);
        proof {
            lemma_json_view(j);
        }
        j
    }
}

fn strings_json(items: &Vec<String>) -> (j: Json)
    ensures
        json_view(j) == JsonSpec::Array(strs_json(items@)),
{
    let mut out: Vec<Json> = Vec::new();
    let mut i: usize = 0;
    while i < items.len()
        invariant
            i <= items@.len(),
            items_view(out@) =~= strs_json(items@).take(i as int),
        decreases items.len() - i,
    {
        let ghost before = out@;
        out.push(str_json(items[i].as_str()));
        assert(strs_json(items@).take(i + 1) =~= strs_json(items@).take(i as int).push(JsonSpec::Str(items@[i as int]@)));
        assert(items_view(out@) =~= items_view(before).push(JsonSpec::Str(items@[i as int]@)));
        i = i + 1;
    }
    let j = Json::Array(out);
    proof {
        lemma_json_view(j);
        assert(strs_json(items@).take(i as int) == strs_json(items@));
    }
    j
}

impl FunctionParametersObject {
    /// The parameter schema: `{"type": "object", "properties": .., "required": [..]}`.
    pub fn json(&self) -> (j: Json)
        ensures
            json_view(j) == parameters_json(*self),
    {
        let mut members: Vec<(String, Json)> = Vec::new();
        members.push((String::from_str("type"), str_json("object")));
        members.push((String::from_str("properties"), self.properties.json()));
        members.push((String::from_str("required"), strings_json(&self.required)));
        let ghost ms = members@;
        let j = Json::Object(members);
        proof {
            lemma_json_view(j);
            assert(members_view(ms) =~= seq![
                ("type"@, JsonSpec::Str("object"@)),
                ("properties"@, JsonSpec::Object(properties_members(self.properties.arguments@))),
                ("required"@, JsonSpec::Array(strs_json(self.required@))),
            ]);
        }
        j
    }
}

/// A tool offered to the model: its name, what it does and its parameters.
pub struct ToolSpecification {
    pub name: String,
    pub description: String,
    pub parameters: FunctionParametersObject,
}

/// The description of a tool for the model:
/// `{"type": "function", "function": {"name": .., "description": .., "parameters": ..}}`.
pub open spec fn tool_json(t: ToolSpecification) -> JsonSpec {
    JsonSpec::Object(
        seq![
            ("type"@, JsonSpec::Str("function"@)),
            (
                "function"@,
                JsonSpec::Object(
                    seq![
                        ("name"@, JsonSpec::Str(t.name@)),
                        ("description"@, JsonSpec::Str(t.description@)),
                        ("parameters"@, parameters_json(t.parameters)),
                    ],
                ),
            ),
        ],
    )
}

/// Something that can describe itself to the model as a tool.
pub trait LLMTool {
    fn json(&self) -> Json;
}

impl LLMTool for ToolSpecification {
    /// The description of this tool for the model.
    fn json(&self) -> (j: Json)
        ensures
            json_view(j) == tool_json(*self),
    {
        let mut function: Vec<(String, Json)> = Vec::new();
        function.push((String::from_str("name"), str_json(self.name.as_str())));
        function.push((String::from_str("description"), str_json(self.description.as_str())));
        function.push((String::from_str("parameters"), self.parameters.json()));
        let ghost fs = function@;
        let function = Json::Object(function);
        let mut members: Vec<(String, Json)> = Vec::new();
        members.push((String::from_str("type"), str_json("function")));
        members.push((String::from_str("function"), function));
        let ghost ms = members@;
        let j = Json::Object(members);
        proof {
            lemma_json_view(function);
            lemma_json_view(j);
            assert(members_view(fs) =~= seq![
                ("name"@, JsonSpec::Str(self.name@)),
                ("description"@, JsonSpec::Str(self.description@)),
                ("parameters"@, parameters_json(self.parameters)),
            ]);
            assert(members_view(ms) =~= seq![
                ("type"@, JsonSpec::Str("function"@)),
                ("function"@, json_view(function)),
            ]);
        }
        j
    }
}

fn property(name: &str, description: &str) -> (p: FunctionParametersObjectPropertyObject)
    ensures
        p.name@ == name@,
        p.value_type@ == "string"@,
        p.description@ == description@,
{
    FunctionParametersObjectPropertyObject {
        name: String::from_str(name),
        value_type: String::from_str("string"),
        description: String::from_str(description),
    }
}

/// A string argument with the given name and description.
pub open spec fn is_string_property(p: FunctionParametersObjectPropertyObject, name: Seq<char>, description: Seq<char>) -> bool {
    p.name@ == name && p.value_type@ == "string"@ && p.description@ == description
}

/// The `Read` tool with its name, description and parameters.
pub open spec fn is_read_tool(t: ToolSpecification) -> bool {
    &&& t.name@ == "Read"@
    &&& t.description@ == "Read and return the contents of a file."@
    &&& t.parameters.name@ == "file_path"@
    &&& t.parameters.properties.arguments@.len() == 1
    &&& is_string_property(t.parameters.properties.arguments@[0], "file_path"@, "The path to the file to read"@)
    &&& t.parameters.required@.len() == 1
    &&& t.parameters.required@[0]@ == "file_path"@
}

/// The `Read` tool: reads a file.
pub fn read_tool() -> (t: ToolSpecification)
    ensures
        is_read_tool(t),
{
    let mut arguments = Vec::new();
    arguments.push(property("file_path", "The path to the file to read"));
    let mut required = Vec::new();
    required.push(String::from_str("file_path"));
    ToolSpecification {
        name: String::from_str("Read"),
        description: String::from_str("Read and return the contents of a file."),
        parameters: FunctionParametersObject {
            name: String::from_str("file_path"),
            properties: FunctionParametersObjectPropertiesObject { arguments },
            required,
        },
    }
}

/// The `Write` tool with its name, description and parameters.
pub open spec fn is_write_tool(t: ToolSpecification) -> bool {
    &&& t.name@ == "Write"@
    &&& t.description@ == "Write content to a file"@
    &&& t.parameters.name@ == "write"@
    &&& t.parameters.properties.arguments@.len() == 2
    &&& is_string_property(t.parameters.properties.arguments@[0], "file_path"@, "The path of the file to write to"@)
    &&& is_string_property(t.parameters.properties.arguments@[1], "content"@, "The content to write to the file"@)
    &&& t.parameters.required@.len() == 2
    &&& t.parameters.required@[0]@ == "file_path"@
    &&& t.parameters.required@[1]@ == "content"@
}

/// The `Write` tool: writes a file.
pub fn write_tool() -> (t: ToolSpecification)
    ensures
        is_write_tool(t),
{
    let mut arguments = Vec::new();
    arguments.push(property("file_path", "The path of the file to write to"));
    arguments.push(property("content", "The content to write to the file"));
    let mut required = Vec::new();
    required.push(String::from_str("file_path"));
    required.push(String::from_str("content"));
    ToolSpecification {
        name: String::from_str("Write"),
        description: String::from_str("Write content to a file"),
        parameters: FunctionParametersObject {
            name: String::from_str("write"),
            properties: FunctionParametersObjectPropertiesObject { arguments },
            required,
        },
    }
}

/// The `Bash` tool with its name, description and parameters.
pub open spec fn is_bash_tool(t: ToolSpecification) -> bool {
    &&& t.name@ == "Bash"@
    &&& t.description@ == "Execute a shell command"@
    &&& t.parameters.name@ == "bash"@
    &&& t.parameters.properties.arguments@.len() == 1
    &&& is_string_property(t.parameters.properties.arguments@[0], "command"@, "The command to execute"@)
    &&& t.parameters.required@.len() == 1
    &&& t.parameters.required@[0]@ == "command"@
}

/// The `Bash` tool: runs a command.
pub fn bash_tool() -> (t: ToolSpecification)
    ensures
        is_bash_tool(t),
{
    let mut arguments = Vec::new();
    arguments.push(property("command", "The command to execute"));
    let mut required = Vec::new();
    required.push(String::from_str("command"));
    ToolSpecification {
        name: String::from_str("Bash"),
        description: String::from_str("Execute a shell command"),
        parameters: FunctionParametersObject {
            name: String::from_str("bash"),
            properties: FunctionParametersObjectPropertiesObject { arguments },
            required,
        },
    }
}

/// The `ReadSkill` tool with its name, description and parameters.
pub open spec fn is_read_skill_tool(t: ToolSpecification) -> bool {
    &&& t.name@ == "ReadSkill"@
    &&& t.description@ == "Read a specific skill and return its output"@
    &&& t.parameters.name@ == "ReadSkill"@
    &&& t.parameters.properties.arguments@.len() == 2
    &&& is_string_property(t.parameters.properties.arguments@[0], "skill_name"@, "The name of the skill to be read"@)
    &&& is_string_property(
            t.parameters.properties.arguments@[1],
            "reference_path"@,
            "Optional reference path within the skill to read for incremental reading"@,
        )
    &&& t.parameters.required@.len() == 1
    &&& t.parameters.required@[0]@ == "skill_name"@
}

/// The `ReadSkill` tool: reads a skill or one of its references.
pub fn read_skill_tool() -> (t: ToolSpecification)
    ensures
        is_read_skill_tool(t),
{
    let mut arguments = Vec::new();
    arguments.push(property("skill_name", "The name of the skill to be read"));
    arguments.push(
        property(
            "reference_path",
            "Optional reference path within the skill to read for incremental reading",
        ),
    );
    let mut required = Vec::new();
    required.push(String::from_str("skill_name"));
    ToolSpecification {
        name: String::from_str("ReadSkill"),
        description: String::from_str("Read a specific skill and return its output"),
        parameters: FunctionParametersObject {
            name: String::from_str("ReadSkill"),
            properties: FunctionParametersObjectPropertiesObject { arguments },
            required,
        },
    }
}

/// Which handler runs a tool call.
#[derive(Debug, PartialEq, Eq, Structural, Clone, Copy)]
pub enum ToolHandler {
    Read,
    Write,
    Bash,
    ReadSkill,
}

/// The tools offered to the model, and the handler registered under each tool name.
pub struct ToolsManager {
    pub tools: Vec<ToolSpecification>,
    handlers: Vec<(String, ToolHandler)>,
}

/// The registered handlers, by name.
pub open spec fn handlers_view(handlers: Seq<(String, ToolHandler)>) -> Seq<(Seq<char>, ToolHandler)> {
    Seq::new(handlers.len(), |i: int| (handlers[i].0@, handlers[i].1))
}

impl ToolsManager {
    /// The registered handlers, by name.
    pub closed spec fn handlers(&self) -> Seq<(Seq<char>, ToolHandler)> {
        handlers_view(self.handlers@)
    }

    /// The tools offered to the model, in order.
    pub closed spec fn tool_list(&self) -> Seq<ToolSpecification> {
        self.tools@
    }

    /// How many names have a handler registered.
    pub fn handler_count(&self) -> (n: usize)
        ensures
            n == self.handlers().len(),
    {
        self.handlers.len()
    }

    /// No name is registered twice.
    pub open spec fn wf(&self) -> bool {
        keys_distinct(self.handlers())
    }

    /// The four tools `Read`, `Write`, `Bash` and `ReadSkill`, each with its handler
    /// registered under its name.
    pub fn new() -> (manager: ToolsManager)
        ensures
            manager.wf(),
            manager.tool_list().len() == 4,
            is_read_tool(manager.tool_list()[0]),
            is_write_tool(manager.tool_list()[1]),
            is_bash_tool(manager.tool_list()[2]),
            is_read_skill_tool(manager.tool_list()[3]),
            assoc_get(manager.handlers(), "Read"@) == Some(ToolHandler::Read),
            assoc_get(manager.handlers(), "Write"@) == Some(ToolHandler::Write),
            assoc_get(manager.handlers(), "Bash"@) == Some(ToolHandler::Bash),
            assoc_get(manager.handlers(), "ReadSkill"@) == Some(ToolHandler::ReadSkill),
            forall|name: Seq<char>|
                name != "Read"@ && name != "Write"@ && name != "Bash"@ && name != "ReadSkill"@
                    ==> assoc_get(#[trigger] manager.handlers(), name) is None,
    {
        let mut tools = Vec::new();
        tools.push(read_tool());
        tools.push(write_tool());
        tools.push(bash_tool());
        tools.push(read_skill_tool());
        let mut instance = ToolsManager { tools, handlers: Vec::new() };
        proof {
            reveal_strlit("Read");
            reveal_strlit("Write");
            reveal_strlit("Bash");
            reveal_strlit("ReadSkill");
            assert(instance.handlers() =~= Seq::empty());
        }
        let ghost h0 = instance.handlers();
        instance.register_handler(String::from_str("Read"), ToolHandler::Read);
        let ghost h1 = instance.handlers();
        instance.register_handler(String::from_str("Write"), ToolHandler::Write);
        let ghost h2 = instance.handlers();
        instance.register_handler(String::from_str("Bash"), ToolHandler::Bash);
        let ghost h3 = instance.handlers();
        instance.register_handler(String::from_str("ReadSkill"), ToolHandler::ReadSkill);
        proof {
            assert("Read"@ != "Write"@) by { assert("Read"@.len() != "Write"@.len()); }
            assert("Read"@ != "Bash"@) by { assert("Read"@[0] != "Bash"@[0]); }
            assert("Write"@ != "Bash"@) by { assert("Write"@.len() != "Bash"@.len()); }
            assert("Read"@ != "ReadSkill"@) by { assert("Read"@.len() != "ReadSkill"@.len()); }
            assert("Write"@ != "ReadSkill"@) by { assert("Write"@.len() != "ReadSkill"@.len()); }
            assert("Bash"@ != "ReadSkill"@) by { assert("Bash"@.len() != "ReadSkill"@.len()); }
            assert forall|name: Seq<char>|
                name != "Read"@ && name != "Write"@ && name != "Bash"@ && name != "ReadSkill"@
                    implies assoc_get(#[trigger] instance.handlers(), name) is None by {
                lemma_assoc_get_insert(h0, "Read"@, ToolHandler::Read, name);
                lemma_assoc_get_insert(h1, "Write"@, ToolHandler::Write, name);
                lemma_assoc_get_insert(h2, "Bash"@, ToolHandler::Bash, name);
                lemma_assoc_get_insert(h3, "ReadSkill"@, ToolHandler::ReadSkill, name);
            }
            lemma_assoc_get_insert(h0, "Read"@, ToolHandler::Read, "Write"@);
            lemma_assoc_get_insert(h1, "Write"@, ToolHandler::Write, "Read"@);
            lemma_assoc_get_insert(h2, "Bash"@, ToolHandler::Bash, "Read"@);
            lemma_assoc_get_insert(h2, "Bash"@, ToolHandler::Bash, "Write"@);
            lemma_assoc_get_insert(h3, "ReadSkill"@, ToolHandler::ReadSkill, "Read"@);
            lemma_assoc_get_insert(h3, "ReadSkill"@, ToolHandler::ReadSkill, "Write"@);
            lemma_assoc_get_insert(h3, "ReadSkill"@, ToolHandler::ReadSkill, "Bash"@);
        }
        instance
    }

    /// The descriptions of all tools, in order, for the model.
    pub fn json(&self) -> (specs: Vec<Json>)
        ensures
            specs@.len() == self.tool_list().len(),
            forall|i: int| 0 <= i < specs@.len() ==> json_view(#[trigger] specs@[i]) == tool_json(self.tool_list()[i]),
    {
        let mut specs = Vec::new();
        let mut i: usize = 0;
        while i < self.tools.len()
            invariant
                i <= self.tools@.len(),
                specs@.len() == i,
                forall|k: int| 0 <= k < i ==> json_view(#[trigger] specs@[k]) == tool_json(self.tools@[k]),
            decreases self.tools.len() - i,
        {
            specs.push(self.tools[i].json());
            i = i + 1;
        }
        specs
    }

    /// The handler registered under `tool_name`, if any.
    pub fn handler_for(&self, tool_name: &str) -> (handler: Option<ToolHandler>)
        requires
            self.wf(),
        ensures
            handler == assoc_get(self.handlers(), tool_name@),
    {
        let mut i: usize = 0;
        while i < self.handlers.len()
            invariant
                self.wf(),
                i <= self.handlers@.len(),
                forall|q: int| 0 <= q < i ==> self.handlers@[q].0@ != tool_name@,
            decreases self.handlers.len() - i,
        {
            if crate::text::str_equal(self.handlers[i].0.as_str(), tool_name) {
                proof {
                    assert(self.handlers()[i as int].0 == tool_name@);
                    lemma_key_index(self.handlers(), tool_name@, i as int);
                }
                return Some(self.handlers[i].1);
            }
            i = i + 1;
        }
        proof {
            if has_key(self.handlers(), tool_name@) {
                let p = choose|p: int| 0 <= p < self.handlers().len() && self.handlers()[p].0 == tool_name@;
                assert(self.handlers()[p].0 == self.handlers@[p].0@);
            }
        }
        None
    }

    /// What a call of the tool named `tool_name` with `arguments` asks its handler to do;
    /// `None` when no handler is registered under that name.
    pub fn execute(&self, tool_name: &str, arguments: &ToolArguments) -> (request: Option<ToolRequest>)
        requires
            self.wf(),
            arguments.wf(),
        ensures
            match assoc_get(self.handlers(), tool_name@) {
                None => request is None,
                Some(handler) => request matches Some(r) && request_matches(
                    handler,
                    entries_view(arguments.entries@),
                    r,
                ),
            },
    {
        match self.handler_for(tool_name) {
            None => None,
            Some(handler) => Some(plan_tool_call(handler, arguments)),
        }
    }

    /// Registers `handler` under `tool_name`, replacing any handler registered under it.
    pub fn register_handler(&mut self, tool_name: String, handler: ToolHandler)
        requires
            old(self).wf(),
        ensures
            final(self).wf(),
            final(self).tool_list() == old(self).tool_list(),
            final(self).handlers() == assoc_insert(old(self).handlers(), tool_name@, handler),
    {
        let ghost before = self.handlers();
        proof {
            lemma_assoc_insert(before, tool_name@, handler);
        }
        let mut i: usize = 0;
        while i < self.handlers.len() && !(self.handlers[i].0 == tool_name)
            invariant
                i <= self.handlers@.len(),
                forall|q: int| 0 <= q < i ==> self.handlers@[q].0@ != tool_name@,
            decreases self.handlers.len() - i,
        {
            i = i + 1;
        }
        if i < self.handlers.len() {
            self.handlers.set(i, (tool_name, handler));
            assert(self.handlers() =~= before.update(i as int, (tool_name@, handler)));
        } else {
            self.handlers.push((tool_name, handler));
            assert forall|q: int| 0 <= q < before.len() implies before[q].0 != tool_name@ by {
                assert(before[q].0 == old(self).handlers@[q].0@);
            }
            assert(self.handlers() =~= before.push((tool_name@, handler)));
        }
    }
}

/// What is read back after registering: the name registered gives its handler, and every
/// other name gives what it gave before.
pub proof fn law_register_then_resolve(
    manager: ToolsManager,
    tool_name: Seq<char>,
    handler: ToolHandler,
    other: Seq<char>,
)
    requires
        manager.wf(),
    ensures
        assoc_get(assoc_insert(manager.handlers(), tool_name, handler), tool_name) == Some(handler),
        other != tool_name ==> assoc_get(assoc_insert(manager.handlers(), tool_name, handler), other)
            == assoc_get(manager.handlers(), other),
{
    lemma_assoc_get_insert(manager.handlers(), tool_name, handler, other);
}

} // verus!
