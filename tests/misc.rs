use hc_bundle::config::{ErrorHandling, Sharing, SubConfig};
use hc_bundle::error::CliError;
use hc_bundle::logger::{test_logger, TestLogger};
use hc_bundle::scaffold::{get_zome_name, AssemblyScriptScaffold, RustScaffold};
use hc_bundle::value::{find_field, insert_field, Field, Value};

fn text(x: &str) -> String {
    x.to_string()
}

#[test]
fn rust_scaffold_builds_with_cargo() {
    let s = RustScaffold::new();
    assert_eq!(s.build_template.artifact, "target/wasm32-unknown-unknown/release/code.wasm");
    assert_eq!(s.build_template.steps.len(), 1);
    assert_eq!(s.build_template.steps[0].program, "cargo");
    assert_eq!(
        s.build_template.steps[0].args,
        vec![text("build"), text("--release"), text("--target=wasm32-unknown-unknown")]
    );
}

#[test]
fn assemblyscript_scaffold_builds_with_asc() {
    let s = AssemblyScriptScaffold::new();
    assert_eq!(s.build_template.artifact, "module.wasm");
    assert_eq!(s.build_template.steps[0].program, "./node_modules/assemblyscript/bin/asc");
    assert_eq!(s.build_template.steps[0].args, vec![text("index.ts"), text("-b"), text("module.wasm")]);
}

#[test]
fn zome_name_comes_from_the_parent_path() {
    assert_eq!(get_zome_name("zomes/chat/code"), "zomes-chat");
    assert_eq!(get_zome_name("chat/code"), "chat");
    assert_eq!(get_zome_name("/"), "myzome");
}

#[test]
fn logger_keeps_messages() {
    let mut l = TestLogger { log: vec![] };
    l.log(text("a"));
    l.log(text("b \"q\""));
    assert_eq!(l.log, vec![text("a"), text("b \"q\"")]);
    assert_eq!(l.dump(), "[\"a\", \"b \\\"q\\\"\"]");
    let shared = test_logger();
    assert!(shared.lock().unwrap().log.is_empty());
}

#[test]
fn names_of_configuration_values() {
    assert_eq!(Sharing::Public.name(), "public");
    assert_eq!(Sharing::Private.name(), "private");
    assert_eq!(Sharing::Encrypted.name(), "encrypted");
    let c = SubConfig { error_handling: ErrorHandling::ThrowErrors };
    assert_eq!(c.error_handling.name(), "throw-errors");
    assert_eq!(CliError::UnknownLanguage.message(), "unknown language");
}

#[test]
fn object_fields_are_set_and_found() {
    let mut fs: Vec<Field> = vec![];
    insert_field(&mut fs, text("a"), Value::Str(text("1")));
    insert_field(&mut fs, text("b"), Value::Str(text("2")));
    insert_field(&mut fs, text("a"), Value::Str(text("3")));
    assert_eq!(fs.len(), 2);
    assert_eq!(find_field(&fs, &text("a")), Some(0));
    assert!(matches!(&fs[0].value, Value::Str(s) if s == "3"));
    assert_eq!(find_field(&fs, &text("zz")), None);
}

#[test]
fn deep_clone_copies_nested_values() {
    let v = Value::Obj(vec![Field {
        key: text("k"),
        value: Value::Arr(vec![Value::Other(text("null")), Value::Str(text("s"))]),
    }]);
    let c = v.deep_clone();
    match c {
        Value::Obj(fs) => match &fs[0].value {
            Value::Arr(items) => {
                assert!(matches!(&items[0], Value::Other(t) if t == "null"));
                assert!(matches!(&items[1], Value::Str(t) if t == "s"));
            },
            other => panic!("unexpected {:?}", other),
        },
        other => panic!("unexpected {:?}", other),
    }
}
