use hc_bundle::pack::Packager;
use hc_bundle::runner::{after_artifact, Build, BuildAction, BuildError};
use hc_bundle::tree::{Entry, FileData, Node};
use hc_bundle::value::{Field, Value};

fn text(x: &str) -> String {
    x.to_string()
}

fn field(key: &str, value: Value) -> Field {
    Field { key: text(key), value }
}

fn spec_value(steps: Vec<Field>, artifact: Value) -> Value {
    Value::Obj(vec![field("steps", Value::Obj(steps)), field("artifact", artifact)])
}

fn args(xs: &[&str]) -> Value {
    Value::Arr(xs.iter().map(|x| Value::Str(text(x))).collect())
}

fn file(name: &str, json: Option<Value>) -> Entry {
    Entry { name: text(name), node: Node::File(FileData { bytes: vec![], json }) }
}

#[test]
fn build_spec_is_read_in_order() {
    let v = spec_value(
        vec![field("cargo", args(&["build", "--release"])), field("wasm-opt", args(&["-O"]))],
        Value::Str(text("target/out.wasm")),
    );
    let b = Build::from_value(&v).unwrap();
    assert_eq!(b.artifact, "target/out.wasm");
    assert_eq!(b.steps.len(), 2);
    assert_eq!(b.steps[0].program, "cargo");
    assert_eq!(b.steps[0].args, vec![text("build"), text("--release")]);
    assert_eq!(b.steps[1].program, "wasm-opt");
    assert_eq!(b.steps[1].args, vec![text("-O")]);
}

#[test]
fn build_spec_needs_steps_and_artifact() {
    let no_steps = spec_value(vec![], Value::Str(text("a.wasm")));
    assert_eq!(Build::from_value(&no_steps).unwrap_err(), BuildError::InvalidSpec);
    let bad_artifact = spec_value(vec![field("cargo", args(&[]))], Value::Other(text("3")));
    assert_eq!(Build::from_value(&bad_artifact).unwrap_err(), BuildError::InvalidSpec);
    let bad_args = spec_value(vec![field("cargo", Value::Str(text("build")))], Value::Str(text("a")));
    assert_eq!(Build::from_value(&bad_args).unwrap_err(), BuildError::InvalidSpec);
    let bad_arg = spec_value(
        vec![field("cargo", Value::Arr(vec![Value::Str(text("x")), Value::Other(text("1"))]))],
        Value::Str(text("a")),
    );
    assert_eq!(Build::from_value(&bad_arg).unwrap_err(), BuildError::InvalidSpec);
    assert_eq!(Build::from_value(&Value::Arr(vec![])).unwrap_err(), BuildError::InvalidSpec);
    let no_artifact = Value::Obj(vec![field("steps", Value::Obj(vec![field("cargo", args(&[]))]))]);
    assert_eq!(Build::from_value(&no_artifact).unwrap_err(), BuildError::InvalidSpec);
}

#[test]
fn build_spec_round_trips_through_json() {
    let b = Build::with_artifact("out.wasm").cmd("make", &["all", "-j2"]);
    let back = Build::from_value(&b.to_value()).unwrap();
    assert_eq!(back.artifact, "out.wasm");
    assert_eq!(back.steps.len(), 1);
    assert_eq!(back.steps[0].program, "make");
    assert_eq!(back.steps[0].args, vec![text("all"), text("-j2")]);
}

#[test]
fn build_runs_steps_then_reads_artifact() {
    let b = Build::with_artifact("a").cmd("one", &[]).cmd("two", &["x"]);
    assert!(matches!(b.first_action(), BuildAction::RunStep(0)));
    assert!(matches!(b.after_step(0, true, Some(0)), BuildAction::RunStep(1)));
    assert!(matches!(b.after_step(1, true, Some(0)), BuildAction::ReadArtifact));
    assert!(matches!(
        b.after_step(0, false, Some(2)),
        BuildAction::Finished(Err(BuildError::Failed { step: 0, status: Some(2) }))
    ));
    assert!(matches!(
        b.after_step(1, false, None),
        BuildAction::Finished(Err(BuildError::Failed { step: 1, status: None }))
    ));
    assert!(matches!(Build::with_artifact("a").first_action(), BuildAction::ReadArtifact));
}

#[test]
fn artifact_is_read_or_missing() {
    match after_artifact(Some(vec![1, 2])) {
        BuildAction::Finished(Ok(bytes)) => assert_eq!(bytes, vec![1, 2]),
        other => panic!("unexpected {:?}", other),
    }
    assert!(matches!(after_artifact(None), BuildAction::Finished(Err(BuildError::ArtifactMissing))));
}

#[test]
fn build_unit_spec_comes_from_its_build_file() {
    let v = spec_value(vec![field("cargo", args(&["build"]))], Value::Str(text("a.wasm")));
    let unit = vec![file("lib.rs", None), file(".build", Some(v))];
    let b = Build::from_unit(&unit).unwrap();
    assert_eq!(b.artifact, "a.wasm");
    let broken = vec![file(".build", None)];
    assert_eq!(Build::from_unit(&broken).unwrap_err(), BuildError::InvalidSpec);
    assert_eq!(Build::from_unit(&vec![]).unwrap_err(), BuildError::InvalidSpec);
}

#[test]
fn build_requests_follow_the_walk() {
    let v = spec_value(vec![field("cargo", args(&["build"]))], Value::Str(text("a.wasm")));
    let unit = |name: &str, spec: Option<Value>| Entry {
        name: text(name),
        node: Node::Dir(vec![file(".build", spec)]),
    };
    let entries = vec![
        unit("first", Some(v)),
        Entry { name: text("zomes"), node: Node::Dir(vec![unit("inner", None)]) },
        unit(".hidden", None),
    ];
    let requests = Packager::new(false, false).build_requests(&entries);
    assert_eq!(requests.len(), 2);
    assert_eq!(requests[0].path, vec![text("first")]);
    assert!(requests[0].spec.is_ok());
    assert_eq!(requests[1].path, vec![text("zomes"), text("inner")]);
    assert_eq!(requests[1].spec.as_ref().unwrap_err(), &BuildError::InvalidSpec);
    let all = Packager::new(false, true).build_requests(&entries);
    assert_eq!(all.len(), 3);
}
