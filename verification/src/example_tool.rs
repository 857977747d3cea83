//! A tool component that serves as an example: it echoes its configuration.

use crate::json::{array_of, member_values, object_of, push_member, values, Json, JsonValue};
use crate::text::{cat2, owned, str_eq};
use vstd::prelude::*;
use vstd::string::*;

verus! {

/// The component, with the configuration that it was initialised with.
pub struct ExampleToolComponent {
    config: Option<Json>,
}

/// A tool of the component.
#[derive(Debug, PartialEq, Eq)]
pub struct ToolSpec {
    pub name: String,
    pub description: String,
    pub input_schema: Json,
}

/// What the call of a tool comes to.
#[derive(Debug, PartialEq, Eq)]
pub enum ToolRun {
    Output(Json),
    /// It runs until the host stops it.
    Spin,
}

/// The content of a call's outcome.
#[verifier::ext_equal]
pub enum RunValue {
    Output(JsonValue),
    Spin,
    Error(Seq<char>),
}

pub open spec fn run_value(r: Result<ToolRun, String>) -> RunValue {
    match r {
        Ok(ToolRun::Output(j)) => RunValue::Output(j.value()),
        Ok(ToolRun::Spin) => RunValue::Spin,
        Err(e) => RunValue::Error(e@),
    }
}

/// An object type with text properties.
pub open spec fn object_schema(property: Seq<char>) -> Seq<(Seq<char>, JsonValue)> {
    seq![
        ("type"@, JsonValue::Str("object"@)),
        (
            "properties"@,
            JsonValue::Object(
                seq![(property, JsonValue::Object(seq![("type"@, JsonValue::Str("string"@))]))],
            ),
        ),
    ]
}

/// The schema of the configuration: an object with a label.
pub open spec fn config_schema_value() -> JsonValue {
    let o = object_schema("label"@);
    JsonValue::Object(
        seq![o[0], ("required"@, JsonValue::Array(seq![JsonValue::Str("label"@)])), o[1]],
    )
}

fn properties(property: &str) -> (r: Json)
    ensures
        r.value() == object_schema(property@)[1].1,
{
    let mut t: Vec<(String, Json)> = Vec::new();
    push_member(&mut t, "type", Json::text("string"));
    assert(member_values(t@) =~= seq![("type"@, JsonValue::Str("string"@))]);
    let mut p: Vec<(String, Json)> = Vec::new();
    push_member(&mut p, property, object_of(t));
    assert(member_values(p@) =~= seq![
        (property@, JsonValue::Object(seq![("type"@, JsonValue::Str("string"@))])),
    ]);
    object_of(p)
}

fn input_schema(property: &str) -> (r: Json)
    ensures
        r.value() == JsonValue::Object(object_schema(property@)),
{
    let mut v: Vec<(String, Json)> = Vec::new();
    push_member(&mut v, "type", Json::text("object"));
    push_member(&mut v, "properties", properties(property));
    assert(member_values(v@) =~= object_schema(property@));
    object_of(v)
}

impl ExampleToolComponent {
    /// The configuration, where there is one.
    pub closed spec fn config_value(self) -> Option<JsonValue> {
        match self.config {
            Some(c) => Some(c.value()),
            None => None,
        }
    }

    /// Not initialised.
    pub fn new() -> (r: ExampleToolComponent)
        ensures
            r.config_value() is None,
    {
        ExampleToolComponent { config: None }
    }

    /// Takes over a configuration, given as what came of reading it: one with
    /// a label as a text. Anything else changes nothing.
    pub fn init(&mut self, config: Result<Json, String>) -> (r: Result<(), String>)
        ensures
            match config {
                Err(e) => {
                    &&& r matches Err(m) && m@ == "config is not valid JSON: "@ + e@
                    &&& *final(self) == *old(self)
                },
                Ok(c) => if c.value().field("label"@).as_text() is Some {
                    r is Ok && final(self).config_value() == Some(c.value())
                } else {
                    &&& r matches Err(m) && m@ == "config missing required field: label"@
                    &&& *final(self) == *old(self)
                },
            },
    {
        match config {
            Err(e) => Err(cat2("config is not valid JSON: ", e.as_str())),
            Ok(c) => {
                if c.text_at("label").is_none() {
                    return Err(owned("config missing required field: label"));
                }
                self.config = Some(c);
                Ok(())
            },
        }
    }

    /// Drops the configuration.
    pub fn dispose(&mut self)
        ensures
            final(self).config_value() is None,
    {
        self.config = None;
    }

    /// The schema of the configuration.
    pub fn config_schema() -> (r: Json)
        ensures
            r.value() == config_schema_value(),
    {
        let mut required: Vec<Json> = Vec::new();
        required.push(Json::text("label"));
        assert(values(required@) =~= seq![JsonValue::Str("label"@)]);
        let mut v: Vec<(String, Json)> = Vec::new();
        push_member(&mut v, "type", Json::text("object"));
        push_member(&mut v, "required", array_of(required));
        push_member(&mut v, "properties", properties("label"));
        assert(member_values(v@) =~= config_schema_value()->Object_0);
        object_of(v)
    }

    /// The tools of the component.
    pub fn describe() -> (r: Vec<ToolSpec>)
        ensures
            r@.map_values(|t: ToolSpec| (t.name@, t.description@, t.input_schema.value())) == seq![
                (
                    "echo_config"@,
                    "Echo the component config (from lifecycle.init) and the call input."@,
                    JsonValue::Object(object_schema("message"@)),
                ),
                (
                    "spin"@,
                    "Spin forever (epoch hard-stop test material)."@,
                    JsonValue::Object(object_schema("note"@)),
                ),
            ],
    {
        let mut v: Vec<ToolSpec> = Vec::new();
        v.push(
            ToolSpec {
                name: owned("echo_config"),
                description: owned(
                    "Echo the component config (from lifecycle.init) and the call input.",
                ),
                input_schema: input_schema("message"),
            },
        );
        v.push(
            ToolSpec {
                name: owned("spin"),
                description: owned("Spin forever (epoch hard-stop test material)."),
                input_schema: input_schema("note"),
            },
        );
        assert(v@.map_values(|t: ToolSpec| (t.name@, t.description@, t.input_schema.value()))
            =~= seq![
            (
                "echo_config"@,
                "Echo the component config (from lifecycle.init) and the call input."@,
                JsonValue::Object(object_schema("message"@)),
            ),
            (
                "spin"@,
                "Spin forever (epoch hard-stop test material)."@,
                JsonValue::Object(object_schema("note"@)),
            ),
        ]);
        v
    }

    /// What a call comes to, where the input is given as what came of reading
    /// it.
    pub open spec fn run(self, name: Seq<char>, input: Result<Json, String>) -> RunValue {
        match self.config_value() {
            None => RunValue::Error("not initialized: lifecycle.init first"@),
            Some(config) => if name == "echo_config"@ {
                match input {
                    Ok(i) => RunValue::Output(
                        JsonValue::Object(seq![("config"@, config), ("input"@, i.value())]),
                    ),
                    Err(e) => RunValue::Error("input is not valid JSON: "@ + e@),
                }
            } else if name == "spin"@ {
                RunValue::Spin
            } else {
                RunValue::Error("unknown tool: "@ + name)
            },
        }
    }

    /// Calls a tool, see [`ExampleToolComponent::run`].
    pub fn execute(&self, name: &str, input: Result<Json, String>) -> (r: Result<ToolRun, String>)
        ensures
            run_value(r) == self.run(name@, input),
    {
        let config = match &self.config {
            Some(c) => c,
            None => {
                return Err(owned("not initialized: lifecycle.init first"));
            },
        };
        proof {
            reveal_strlit("echo_config");
            reveal_strlit("spin");
            assert("echo_config"@.len() != "spin"@.len());
        }
        if str_eq(name, "echo_config") {
            match input {
                Ok(i) => {
                    let mut v: Vec<(String, Json)> = Vec::new();
                    push_member(&mut v, "config", config.copy());
                    let ghost iv = i.value();
                    push_member(&mut v, "input", i);
                    assert(member_values(v@) =~= seq![
                        ("config"@, config.value()),
                        ("input"@, iv),
                    ]);
                    Ok(ToolRun::Output(object_of(v)))
                },
                Err(e) => Err(cat2("input is not valid JSON: ", e.as_str())),
            }
        } else if str_eq(name, "spin") {
            Ok(ToolRun::Spin)
        } else {
            Err(cat2("unknown tool: ", name))
        }
    }
}

/// A configuration is taken where it has a label, and kept as it came. Any
/// other is refused, and what was taken before stays.
pub proof fn law_configurations_need_a_label(
    t: &mut ExampleToolComponent,
    config: Result<Json, String>,
    r: Result<(), String>,
)
    requires
        call_ensures(ExampleToolComponent::init, (t, config), r),
    ensures
        r is Ok <==> (config is Ok && config->Ok_0.value().field("label"@).as_text() is Some),
        r is Ok ==> final(t).config_value() == Some(config->Ok_0.value()),
        r is Err ==> *final(t) == *old(t),
        config is Err ==> r->Err_0@ == "config is not valid JSON: "@ + config->Err_0@,
        config is Ok && r is Err ==> r->Err_0@ == "config missing required field: label"@,
{
}

/// A component without a configuration runs nothing. The echo gives back the
/// configuration and the input, and a tool that is not there is named.
pub proof fn law_tools_are_run(
    t: &ExampleToolComponent,
    name: &str,
    input: Result<Json, String>,
    r: Result<ToolRun, String>,
)
    requires
        call_ensures(ExampleToolComponent::execute, (t, name, input), r),
    ensures
        t.config_value() is None ==> (r matches Err(e) && e@
            == "not initialized: lifecycle.init first"@),
        t.config_value() is Some && name@ == "echo_config"@ ==> (input matches Ok(i) ==> (
        r matches Ok(ToolRun::Output(j)) && j.value() == JsonValue::Object(
            seq![("config"@, t.config_value()->0), ("input"@, i.value())],
        ))),
        t.config_value() is Some && name@ == "echo_config"@ ==> (input matches Err(e) ==> (
        r matches Err(m) && m@ == "input is not valid JSON: "@ + e@)),
        t.config_value() is Some && name@ == "spin"@ ==> (r matches Ok(ToolRun::Spin)),
        t.config_value() is Some && name@ != "echo_config"@ && name@ != "spin"@ ==> (
        r matches Err(m) && m@ == "unknown tool: "@ + name@),
{
    reveal_strlit("echo_config");
    reveal_strlit("spin");
    assert("echo_config"@.len() != "spin"@.len());
}

/// What is disposed of runs nothing any more.
pub proof fn law_what_is_disposed_of_does_not_run(
    t: &mut ExampleToolComponent,
    name: &str,
    input: Result<Json, String>,
    r: Result<ToolRun, String>,
)
    requires
        call_ensures(ExampleToolComponent::dispose, (t,), ()),
        call_ensures(ExampleToolComponent::execute, (&*final(t), name, input), r),
    ensures
        r is Err,
{
}

/// There are two tools: one that echoes and one that never ends.
pub proof fn law_two_tools_are_described(r: Vec<ToolSpec>)
    requires
        call_ensures(ExampleToolComponent::describe, (), r),
    ensures
        r@.len() == 2,
        r@[0].name@ == "echo_config"@,
        r@[1].name@ == "spin"@,
{
    let v = r@.map_values(|t: ToolSpec| (t.name@, t.description@, t.input_schema.value()));
    assert(v.len() == 2);
    assert(v[0].0 == r@[0].name@);
    assert(v[1].0 == r@[1].name@);
}

} // verus!
