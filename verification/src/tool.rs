//! Tool calls, their results, and what a tool says of itself.

use vstd::prelude::*;

verus! {

/// What a tool says of itself; the parameters are a JSON schema.
#[derive(Debug)]
pub struct ToolDefinition {
    pub name: String,
    pub description: String,
    pub parameters: serde_json::Value,
}

/// A call of a tool; the input is the JSON value that the model sent.
pub struct ToolCall {
    pub id: String,
    pub input: serde_json::Value,
}

/// The answer to a call.
#[derive(Debug)]
pub struct ToolResult {
    pub call_id: String,
    pub success: bool,
    pub output: String,
    pub error: Option<String>,
}

/// A JSON value.
pub enum Json {
    Null,
    Bool(bool),
    /// An integer from zero to `u64::MAX`.
    Unsigned(u64),
    /// Any other number.
    OtherNumber,
    Text(Seq<char>),
    Array(Seq<Json>),
    Object(Map<Seq<char>, Json>),
}

/// What a [`ToolDefinition`] says.
pub struct ToolDefinitionView {
    pub name: Seq<char>,
    pub description: Seq<char>,
    pub parameters: Json,
}

/// What a [`ToolResult`] says.
pub struct ToolResultView {
    pub call_id: Seq<char>,
    pub success: bool,
    pub output: Seq<char>,
    pub error: Option<Seq<char>>,
}

impl View for ToolDefinition {
    type V = ToolDefinitionView;

    open spec fn view(&self) -> ToolDefinitionView {
        ToolDefinitionView {
            name: self.name@,
            description: self.description@,
            parameters: json_of(self.parameters),
        }
    }
}

impl View for ToolResult {
    type V = ToolResultView;

    open spec fn view(&self) -> ToolResultView {
        ToolResultView {
            call_id: self.call_id@,
            success: self.success,
            output: self.output@,
            error: match self.error {
                Some(e) => Some(e@),
                None => None,
            },
        }
    }
}

// ---------------------------------------------------------------------------
// JSON
// ---------------------------------------------------------------------------

/// A JSON value of `serde_json`.
#[verifier::external_type_specification]
#[verifier::external_body]
pub struct ExValue(serde_json::Value);

/// The JSON value that a value of `serde_json` holds.
pub uninterp spec fn json_of(value: serde_json::Value) -> Json;

/// The member of an object with this key; `null` where there is none, or where
/// the value is no object.
pub open spec fn member(value: Json, key: Seq<char>) -> Json {
    match value {
        Json::Object(members) => if members.contains_key(key) {
            members[key]
        } else {
            Json::Null
        },
        _ => Json::Null,
    }
}

/// The members of an object, by key.
pub open spec fn members_of(members: Seq<(String, serde_json::Value)>) -> Map<Seq<char>, Json>
    decreases members.len(),
{
    if members.len() == 0 {
        Map::empty()
    } else {
        members_of(members.drop_last()).insert(members.last().0@, json_of(members.last().1))
    }
}

/// No two members have the same key.
pub open spec fn keys_differ(members: Seq<(String, serde_json::Value)>) -> bool {
    forall|i: int, j: int|
        0 <= i < j < members.len() ==> (#[trigger] members[i]).0@ != (#[trigger] members[j]).0@
}

/// `serde_json::Value` indexed by a string: the member of an object with that
/// key, `null` without one.
#[verifier::external_body]
fn json_member<'a>(value: &'a serde_json::Value, key: &str) -> (r: &'a serde_json::Value)
    ensures
        json_of(*r) == member(json_of(*value), key@),
{
    &value[key]
}

/// `Value::as_str` hands out the text of a string, and nothing of any other
/// value.
pub assume_specification[ serde_json::Value::as_str ](value: &serde_json::Value) -> (r: Option<
    &str,
>)
    ensures
        match r {
            Some(text) => json_of(*value) == Json::Text(text@),
            None => json_of(*value) !is Text,
        },
;

/// `Value::as_u64` hands out an integer from zero to `u64::MAX`, and nothing of
/// any other value.
pub assume_specification[ serde_json::Value::as_u64 ](value: &serde_json::Value) -> (r: Option<
    u64,
>)
    ensures
        match r {
            Some(n) => json_of(*value) == Json::Unsigned(n),
            None => json_of(*value) !is Unsigned,
        },
;

/// `Value::String` holds a text as it is.
#[verifier::external_body]
fn json_text(text: String) -> (r: serde_json::Value)
    ensures
        json_of(r) == Json::Text(text@),
{
    serde_json::Value::String(text)
}

/// `Value::Array` holds values in their order.
#[verifier::external_body]
fn json_array(items: Vec<serde_json::Value>) -> (r: serde_json::Value)
    ensures
        json_of(r) == Json::Array(items@.map_values(|v: serde_json::Value| json_of(v))),
{
    serde_json::Value::Array(items)
}

/// `Value` made of pairs is the object with these members; the keys are to
/// differ, since one of two would be dropped.
#[verifier::external_body]
fn json_object(members: Vec<(String, serde_json::Value)>) -> (r: serde_json::Value)
    requires
        keys_differ(members@),
    ensures
        json_of(r) == Json::Object(members_of(members@)),
{
    serde_json::Value::from_iter(members)
}

// ---------------------------------------------------------------------------
// Reading the input
// ---------------------------------------------------------------------------

/// The command that a call asks for: empty where the input has none.
pub open spec fn requested_command(input: Json) -> Seq<char> {
    match member(input, "command"@) {
        Json::Text(text) => text,
        _ => Seq::empty(),
    }
}

/// The time that a call gives its command, in seconds.
pub open spec fn requested_timeout(input: Json, default_secs: u64) -> u64 {
    match member(input, "timeout_secs"@) {
        Json::Unsigned(secs) => secs,
        _ => default_secs,
    }
}

/// The command that a call asks for, given the text that its input has for it.
pub fn command_or_empty(found: Option<&str>) -> (r: String)
    ensures
        r@ == match found {
            Some(text) => text@,
            None => Seq::empty(),
        },
{
    match found {
        Some(text) => text.to_owned(),
        None => String::new(),
    }
}

/// The time that a call gives its command, given the number that its input has
/// for it.
pub fn timeout_or(found: Option<u64>, default_secs: u64) -> (r: u64)
    ensures
        r == match found {
            Some(secs) => secs,
            None => default_secs,
        },
{
    match found {
        Some(secs) => secs,
        None => default_secs,
    }
}

/// The command that a call asks for.
pub fn command_of(call: &ToolCall) -> (r: String)
    ensures
        r@ == requested_command(json_of(call.input)),
{
    command_or_empty(json_member(&call.input, "command").as_str())
}

/// The time that a call gives its command.
pub fn timeout_of(call: &ToolCall, default_secs: u64) -> (r: u64)
    ensures
        r == requested_timeout(json_of(call.input), default_secs),
{
    timeout_or(json_member(&call.input, "timeout_secs").as_u64(), default_secs)
}

// ---------------------------------------------------------------------------
// The bash tools' definition
// ---------------------------------------------------------------------------

/// The schema of one parameter.
pub open spec fn parameter_schema(kind: Seq<char>, help: Seq<char>) -> Json {
    Json::Object(
        Map::empty().insert("type"@, Json::Text(kind)).insert("description"@, Json::Text(help)),
    )
}

/// The schema of the bash tools' parameters: a command, which has to be given,
/// and the time to give it.
pub open spec fn bash_schema(command_help: Seq<char>, timeout_help: Seq<char>) -> Json {
    let properties = Map::empty().insert(
        "command"@,
        parameter_schema("string"@, command_help),
    ).insert("timeout_secs"@, parameter_schema("integer"@, timeout_help));
    Json::Object(
        Map::empty().insert("type"@, Json::Text("object"@)).insert(
            "properties"@,
            Json::Object(properties),
        ).insert("required"@, Json::Array(seq![Json::Text("command"@)])),
    )
}

/// What the bash tools say of themselves.
pub open spec fn bash_definition(
    command_help: Seq<char>,
    timeout_help: Seq<char>,
) -> ToolDefinitionView {
    ToolDefinitionView {
        name: "execute_bash"@,
        description: "Execute a shell command in the workspace"@,
        parameters: bash_schema(command_help, timeout_help),
    }
}

/// An object with two members.
fn json_pair(key: &str, value: serde_json::Value, other_key: &str, other: serde_json::Value) -> (r:
    serde_json::Value)
    requires
        key@ != other_key@,
    ensures
        json_of(r) == Json::Object(
            Map::empty().insert(key@, json_of(value)).insert(other_key@, json_of(other)),
        ),
{
    let mut members: Vec<(String, serde_json::Value)> = Vec::new();
    members.push((key.to_owned(), value));
    members.push((other_key.to_owned(), other));
    proof {
        reveal_with_fuel(members_of, 3);
        assert(members@.drop_last().drop_last() =~= Seq::empty());
    }
    json_object(members)
}

/// The schema of one parameter.
fn describe_parameter(kind: &str, help: String) -> (r: serde_json::Value)
    ensures
        json_of(r) == parameter_schema(kind@, help@),
{
    proof {
        reveal_strlit("type");
        reveal_strlit("description");
        assert("type"@.len() != "description"@.len());
    }
    json_pair("type", json_text(kind.to_owned()), "description", json_text(help))
}

/// Builds what the bash tools say of themselves.
pub(crate) fn define_bash(command_help: &str, timeout_help: String) -> (r: ToolDefinition)
    ensures
        r@ == bash_definition(command_help@, timeout_help@),
{
    proof {
        reveal_strlit("command");
        reveal_strlit("timeout_secs");
        reveal_strlit("type");
        reveal_strlit("properties");
        reveal_strlit("required");
        assert("command"@.len() != "timeout_secs"@.len());
        assert("type"@.len() != "properties"@.len());
        assert("type"@.len() != "required"@.len());
        assert("properties"@.len() != "required"@.len());
    }
    let properties = json_pair(
        "command",
        describe_parameter("string", command_help.to_owned()),
        "timeout_secs",
        describe_parameter("integer", timeout_help),
    );
    let mut required: Vec<serde_json::Value> = Vec::new();
    required.push(json_text("command".to_owned()));
    let ghost asked = required@.map_values(|v: serde_json::Value| json_of(v));
    assert(asked =~= seq![Json::Text("command"@)]);
    let mut members: Vec<(String, serde_json::Value)> = Vec::new();
    members.push(("type".to_owned(), json_text("object".to_owned())));
    members.push(("properties".to_owned(), properties));
    members.push(("required".to_owned(), json_array(required)));
    proof {
        reveal_with_fuel(members_of, 4);
        assert(members@.drop_last().drop_last().drop_last() =~= Seq::empty());
    }
    ToolDefinition {
        name: "execute_bash".to_owned(),
        description: "Execute a shell command in the workspace".to_owned(),
        parameters: json_object(members),
    }
}

// ---------------------------------------------------------------------------
// Laws
// ---------------------------------------------------------------------------

/// The command is the text that the input has under `command`; where it has
/// none, or something else, the command is empty.
pub proof fn command_is_read(input: Json)
    ensures
        match input {
            Json::Object(members) => {
                &&& members.contains_key("command"@) && members["command"@] is Text
                    ==> requested_command(input) == members["command"@]->Text_0
                &&& !(members.contains_key("command"@) && members["command"@] is Text)
                    ==> requested_command(input).len() == 0
            },
            _ => requested_command(input).len() == 0,
        },
{
}

/// The time is the number that the input has under `timeout_secs`; where it has
/// none, or something else, it is the default.
pub proof fn timeout_is_read(input: Json, default_secs: u64)
    ensures
        match input {
            Json::Object(members) => {
                &&& members.contains_key("timeout_secs"@) && members["timeout_secs"@] is Unsigned
                    ==> requested_timeout(input, default_secs)
                    == members["timeout_secs"@]->Unsigned_0
                &&& !(members.contains_key("timeout_secs"@) && members["timeout_secs"@] is Unsigned)
                    ==> requested_timeout(input, default_secs) == default_secs
            },
            _ => requested_timeout(input, default_secs) == default_secs,
        },
{
}

/// What a definition says of its parameters can be read from it: their types,
/// their help, and that the command alone has to be given.
pub proof fn definition_describes_parameters(command_help: Seq<char>, timeout_help: Seq<char>)
    ensures
        ({
            let d = bash_definition(command_help, timeout_help);
            let properties = member(d.parameters, "properties"@);
            let command = member(properties, "command"@);
            let timeout = member(properties, "timeout_secs"@);
            &&& d.name == "execute_bash"@
            &&& d.description == "Execute a shell command in the workspace"@
            &&& member(d.parameters, "type"@) == Json::Text("object"@)
            &&& member(command, "type"@) == Json::Text("string"@)
            &&& member(command, "description"@) == Json::Text(command_help)
            &&& member(timeout, "type"@) == Json::Text("integer"@)
            &&& member(timeout, "description"@) == Json::Text(timeout_help)
            &&& member(d.parameters, "required"@) == Json::Array(seq![Json::Text("command"@)])
        }),
{
    reveal_strlit("command");
    reveal_strlit("timeout_secs");
    reveal_strlit("type");
    reveal_strlit("description");
    reveal_strlit("properties");
    reveal_strlit("required");
    assert("command"@.len() != "timeout_secs"@.len());
    assert("type"@.len() != "description"@.len());
    assert("type"@.len() != "properties"@.len());
    assert("type"@.len() != "required"@.len());
    assert("properties"@.len() != "required"@.len());
}

/// Definitions and results are seen with all that they hold.
pub proof fn answers_are_seen_whole(definition: ToolDefinition, result: ToolResult)
    ensures
        definition@.name == definition.name@,
        definition@.description == definition.description@,
        definition@.parameters == json_of(definition.parameters),
        result@.call_id == result.call_id@,
        result@.success == result.success,
        result@.output == result.output@,
        result.error matches Some(why) ==> result@.error == Some(why@),
        result.error is None ==> result@.error is None,
{
}

} // verus!
