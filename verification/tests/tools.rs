use dsh_desktop::example_tool::{ExampleToolComponent, ToolRun};
use dsh_desktop::json::{Json, Number};
use dsh_desktop::stream::{StreamStep, TvStreamRegistry};
use dsh_desktop::table::{IdSet, NameSet, Table};

fn convert(v: &serde_json::Value) -> Json {
    match v {
        serde_json::Value::Null => Json::Null,
        serde_json::Value::Bool(b) => Json::Bool(*b),
        serde_json::Value::Number(n) => Json::Number(if let Some(u) = n.as_u64() {
            Number::Unsigned(u)
        } else if let Some(i) = n.as_i64() {
            Number::Negative(i)
        } else {
            Number::Float(n.as_f64().unwrap().to_bits())
        }),
        serde_json::Value::String(s) => Json::Str(s.clone()),
        serde_json::Value::Array(a) => Json::Array(a.iter().map(convert).collect()),
        serde_json::Value::Object(o) => {
            Json::Object(o.iter().map(|(k, v)| (k.clone(), convert(v))).collect())
        }
    }
}

fn json(text: &str) -> Json {
    convert(&serde_json::from_str(text).unwrap())
}

#[test]
fn a_component_needs_a_label() {
    let mut c = ExampleToolComponent::new();
    assert_eq!(
        c.execute("echo_config", Ok(Json::Null)),
        Err("not initialized: lifecycle.init first".to_string())
    );
    assert_eq!(
        c.init(Err("eof".into())),
        Err("config is not valid JSON: eof".to_string())
    );
    assert_eq!(
        c.init(Ok(json("{}"))),
        Err("config missing required field: label".to_string())
    );
    assert_eq!(c.init(Ok(json(r#"{"label":"x"}"#))), Ok(()));
    assert_eq!(
        c.execute("echo_config", Ok(json(r#"{"message":"m"}"#))),
        Ok(ToolRun::Output(json(
            r#"{"config":{"label":"x"},"input":{"message":"m"}}"#
        )))
    );
    assert_eq!(
        c.execute("echo_config", Err("eof".into())),
        Err("input is not valid JSON: eof".to_string())
    );
    assert_eq!(c.execute("spin", Ok(Json::Null)), Ok(ToolRun::Spin));
    assert_eq!(
        c.execute("other", Ok(Json::Null)),
        Err("unknown tool: other".to_string())
    );
    c.dispose();
    assert!(c.execute("spin", Ok(Json::Null)).is_err());
}

#[test]
fn a_component_describes_itself() {
    let names: Vec<String> = ExampleToolComponent::describe()
        .into_iter()
        .map(|t| t.name)
        .collect();
    assert_eq!(names, ["echo_config", "spin"]);
    let schema = ExampleToolComponent::config_schema();
    assert_eq!(
        schema.items_at("required"),
        Some(&vec![Json::Str("label".into())])
    );
}

#[test]
fn streams_append_what_is_new() {
    let mut r = TvStreamRegistry::new();
    assert_eq!(r.drive("k", "ab"), StreamStep::Create);
    assert_eq!(r.drive("k", "abc"), StreamStep::Append("c".into()));
    assert_eq!(r.drive("k", "abc"), StreamStep::Nothing);
    assert_eq!(r.drive("k", "xbc"), StreamStep::Replace);
    assert_eq!(r.drive("k", "x"), StreamStep::Replace);
    assert!(r.has_view("k"));
    assert!(!r.has_view("other"));
    r.clear();
    assert!(!r.has_view("k"));
}

#[test]
fn tables_keep_the_last_value_of_a_key() {
    let mut t: Table<u32> = Table::new();
    assert!(t.get("a").is_none());
    t.insert("a", 1);
    t.insert("b", 2);
    t.insert("a", 3);
    assert_eq!(t.get("a"), Some(&3));
    assert_eq!(t.get("b"), Some(&2));
    assert!(!t.contains_key("c"));
}

#[test]
fn toggling_twice_changes_nothing() {
    let mut s = NameSet::new();
    s.toggle("a");
    assert!(s.contains("a"));
    s.toggle("a");
    assert!(!s.contains("a"));
    let mut n = IdSet::new();
    n.toggle(1);
    n.toggle(2);
    n.remove(1);
    assert!(!n.contains(1) && n.contains(2));
    n.clear();
    assert!(!n.contains(2));
}
