use hc_bundle::pack::{PackError, Packager};
use hc_bundle::runner::BuildError;
use hc_bundle::tree::{BuildOutcome, Entry, FileData, Node};
use hc_bundle::unpack::{plan_unpack, Corruption, UnpackError, WriteOp};
use hc_bundle::value::{Field, Value};

fn text(x: &str) -> String {
    x.to_string()
}

fn file(name: &str, bytes: &[u8]) -> Entry {
    Entry {
        name: text(name),
        node: Node::File(FileData { bytes: bytes.to_vec(), json: None }),
    }
}

fn json_file(name: &str, bytes: &[u8], json: Value) -> Entry {
    Entry {
        name: text(name),
        node: Node::File(FileData { bytes: bytes.to_vec(), json: Some(json) }),
    }
}

fn dir(name: &str, entries: Vec<Entry>) -> Entry {
    Entry { name: text(name), node: Node::Dir(entries) }
}

fn field(key: &str, value: Value) -> Field {
    Field { key: text(key), value }
}

fn obj(fields: Vec<Field>) -> Value {
    Value::Obj(fields)
}

fn get<'a>(fields: &'a [Field], key: &str) -> Option<&'a Value> {
    fields.iter().find(|f| f.key == key).map(|f| &f.value)
}

fn str_of(v: Option<&Value>) -> Option<&str> {
    match v {
        Some(Value::Str(s)) => Some(s.as_str()),
        _ => None,
    }
}

fn fields_of(v: Option<&Value>) -> &[Field] {
    match v {
        Some(Value::Obj(fs)) => fs,
        other => panic!("not an object: {:?}", other),
    }
}

fn keys(fields: &[Field]) -> Vec<&str> {
    fields.iter().map(|f| f.key.as_str()).collect()
}

fn pack(p: Packager, entries: &Vec<Entry>, builds: &Vec<BuildOutcome>) -> Vec<Field> {
    match p.bundle(entries, builds) {
        Ok(Value::Obj(fs)) => fs,
        other => panic!("packing failed: {:?}", other),
    }
}

fn path(parts: &[&str]) -> Vec<String> {
    parts.iter().map(|p| p.to_string()).collect()
}

fn build_unit(name: &str) -> Entry {
    dir(name, vec![file(".build", b"{}"), file("lib.rs", b"fn main() {}")])
}

#[test]
fn files_are_embedded_as_base64() {
    let entries = vec![file("readme", b"hi")];
    let doc = pack(Packager::new(false, false), &entries, &vec![]);
    assert_eq!(str_of(get(&doc, "readme")), Some("aGk="));
    let meta = fields_of(get(&doc, "__META__"));
    assert_eq!(keys(meta), vec!["tree"]);
    assert_eq!(str_of(get(fields_of(get(meta, "tree")), "readme")), Some("file"));
}

#[test]
fn empty_directory_gives_empty_document() {
    let doc = pack(Packager::new(false, false), &vec![], &vec![]);
    assert!(doc.is_empty());
}

#[test]
fn configuration_only_directory_round_trips() {
    let config = obj(vec![field("a", Value::Other(text("1")))]);
    let entries = vec![json_file("app.json", b"{ \"a\": 1 }", config)];
    let doc = pack(Packager::new(false, false), &entries, &vec![]);
    assert_eq!(keys(&doc), vec!["a", "__META__"]);
    assert!(matches!(get(&doc, "a"), Some(Value::Other(n)) if n == "1"));
    let meta = fields_of(get(&doc, "__META__"));
    assert_eq!(keys(meta), vec!["config_file"]);
    assert_eq!(str_of(get(meta, "config_file")), Some("app.json"));

    let plan = plan_unpack(&doc);
    assert!(plan.error.is_none());
    assert_eq!(plan.ops.len(), 1);
    match &plan.ops[0] {
        WriteOp::WriteConfig { path: p, fields } => {
            assert_eq!(p, &path(&["app.json"]));
            assert_eq!(keys(fields), vec!["a"]);
            assert!(matches!(get(fields, "a"), Some(Value::Other(n)) if n == "1"));
        },
        other => panic!("unexpected write {:?}", other),
    }
}

#[test]
fn empty_configuration_is_not_written_back() {
    let entries = vec![json_file("app.json", b"{}", obj(vec![]))];
    let doc = pack(Packager::new(false, false), &entries, &vec![]);
    let plan = plan_unpack(&doc);
    assert!(plan.error.is_none());
    assert!(plan.ops.is_empty());
}

#[test]
fn only_the_first_json_file_is_the_configuration() {
    let entries = vec![
        json_file("a.json", b"{}", obj(vec![field("x", Value::Str(text("y")))])),
        json_file("b.json", b"{}", obj(vec![])),
    ];
    let doc = pack(Packager::new(false, false), &entries, &vec![]);
    assert_eq!(str_of(get(&doc, "x")), Some("y"));
    assert_eq!(str_of(get(&doc, "b.json")), Some("e30="));
    let meta = fields_of(get(&doc, "__META__"));
    assert_eq!(str_of(get(meta, "config_file")), Some("a.json"));
}

#[test]
fn invalid_configuration_is_refused() {
    let entries = vec![file("app.json", b"{ not json")];
    match Packager::new(false, false).bundle(&entries, &vec![]) {
        Err(PackError::InvalidConfig { path: p }) => assert_eq!(p, path(&["app.json"])),
        other => panic!("unexpected {:?}", other),
    }
    let entries = vec![dir("zomes", vec![json_file("z.json", b"[1]", Value::Arr(vec![]))])];
    match Packager::new(false, false).bundle(&entries, &vec![]) {
        Err(PackError::InvalidConfig { path: p }) => assert_eq!(p, path(&["zomes", "z.json"])),
        other => panic!("unexpected {:?}", other),
    }
}

#[test]
fn tree_round_trips_through_unpacking() {
    let config = obj(vec![field("name", Value::Str(text("app")))]);
    let entries = vec![
        json_file("app.json", b"{\"name\":\"app\"}", config),
        file("readme", b"hi"),
        dir("zomes", vec![file("x.txt", b"abc"), dir("empty", vec![])]),
    ];
    let doc = pack(Packager::new(false, false), &entries, &vec![]);
    let plan = plan_unpack(&doc);
    assert!(plan.error.is_none());
    let mut files: Vec<(Vec<String>, Vec<u8>)> = vec![];
    let mut dirs: Vec<Vec<String>> = vec![];
    let mut configs: Vec<(Vec<String>, Vec<String>)> = vec![];
    for op in &plan.ops {
        match op {
            WriteOp::CreateDir { path: p } => dirs.push(p.clone()),
            WriteOp::WriteFile { path: p, bytes } => files.push((p.clone(), bytes.clone())),
            WriteOp::WriteConfig { path: p, fields } => {
                configs.push((p.clone(), fields.iter().map(|f| f.key.clone()).collect()))
            },
        }
    }
    files.sort();
    dirs.sort();
    assert_eq!(
        files,
        vec![(path(&["readme"]), b"hi".to_vec()), (path(&["zomes", "x.txt"]), b"abc".to_vec())]
    );
    assert_eq!(dirs, vec![path(&["zomes"]), path(&["zomes", "empty"])]);
    assert_eq!(configs, vec![(path(&["app.json"]), vec![text("name")])]);
}

#[test]
fn stripped_bundle_has_no_metadata_and_unpacks_to_nothing() {
    let entries = vec![
        file("readme", b"hi"),
        dir("zomes", vec![file("x.txt", b"abc")]),
    ];
    let doc = pack(Packager::new(true, false), &entries, &vec![]);
    assert!(get(&doc, "__META__").is_none());
    assert!(get(fields_of(get(&doc, "zomes")), "__META__").is_none());
    let plan = plan_unpack(&doc);
    assert!(plan.error.is_none());
    assert!(plan.ops.is_empty());
}

#[test]
fn build_unit_is_replaced_by_its_artifact() {
    let entries = vec![build_unit("code")];
    let builds = vec![BuildOutcome { path: path(&["code"]), result: Ok(b"\0asm".to_vec()) }];
    let doc = pack(Packager::new(false, false), &entries, &builds);
    assert_eq!(str_of(get(&doc, "code")), Some("AGFzbQ=="));
    let tree = fields_of(get(fields_of(get(&doc, "__META__")), "tree"));
    assert_eq!(str_of(get(tree, "code")), Some("bin"));

    let plan = plan_unpack(&doc);
    assert!(plan.error.is_none());
    assert_eq!(plan.ops.len(), 1);
    match &plan.ops[0] {
        WriteOp::WriteFile { path: p, bytes } => {
            assert_eq!(p, &path(&["code.wasm"]));
            assert_eq!(bytes, &b"\0asm".to_vec());
        },
        other => panic!("unexpected write {:?}", other),
    }
}

#[test]
fn artifact_extension_replaces_the_old_one() {
    let doc = vec![
        field("lib.rs", Value::Str(text("aGk="))),
        field("__META__", obj(vec![field("tree", obj(vec![field("lib.rs", Value::Str(text("bin")))]))])),
    ];
    let plan = plan_unpack(&doc);
    assert!(plan.error.is_none());
    match &plan.ops[0] {
        WriteOp::WriteFile { path: p, bytes } => {
            assert_eq!(p, &path(&["lib.wasm"]));
            assert_eq!(bytes, &b"hi".to_vec());
        },
        other => panic!("unexpected write {:?}", other),
    }
}

#[test]
fn nested_build_unit_is_looked_up_by_path() {
    let entries = vec![dir("zomes", vec![dir("chat", vec![build_unit("code")])])];
    let builds = vec![
        BuildOutcome { path: path(&["code"]), result: Ok(b"wrong".to_vec()) },
        BuildOutcome { path: path(&["zomes", "chat", "code"]), result: Ok(b"hi".to_vec()) },
    ];
    let doc = pack(Packager::new(false, false), &entries, &builds);
    let chat = fields_of(get(fields_of(get(&doc, "zomes")), "chat"));
    assert_eq!(str_of(get(chat, "code")), Some("aGk="));
}

#[test]
fn failed_build_fails_the_packing() {
    let entries = vec![file("a", b"x"), build_unit("code")];
    let builds = vec![BuildOutcome {
        path: path(&["code"]),
        result: Err(BuildError::Failed { step: 0, status: Some(101) }),
    }];
    match Packager::new(false, false).bundle(&entries, &builds) {
        Err(PackError::Build { path: p, error }) => {
            assert_eq!(p, path(&["code"]));
            assert_eq!(error, BuildError::Failed { step: 0, status: Some(101) });
        },
        other => panic!("unexpected {:?}", other),
    }
}

#[test]
fn missing_artifact_fails_the_packing() {
    let entries = vec![build_unit("code")];
    let builds = vec![BuildOutcome { path: path(&["code"]), result: Err(BuildError::ArtifactMissing) }];
    match Packager::new(false, false).bundle(&entries, &builds) {
        Err(PackError::Build { path: p, error }) => {
            assert_eq!(p, path(&["code"]));
            assert_eq!(error, BuildError::ArtifactMissing);
        },
        other => panic!("unexpected {:?}", other),
    }
}

#[test]
fn build_without_outcome_is_reported() {
    let entries = vec![build_unit("code")];
    match Packager::new(false, false).bundle(&entries, &vec![]) {
        Err(PackError::NotBuilt { path: p }) => assert_eq!(p, path(&["code"])),
        other => panic!("unexpected {:?}", other),
    }
}

#[test]
fn dotfiles_are_skipped_by_default() {
    let entries = vec![file(".hidden", b"secret"), file("shown", b"hi")];
    let doc = pack(Packager::new(false, false), &entries, &vec![]);
    assert!(get(&doc, ".hidden").is_none());
    let tree = fields_of(get(fields_of(get(&doc, "__META__")), "tree"));
    assert!(get(tree, ".hidden").is_none());
    assert_eq!(keys(tree), vec!["shown"]);
}

#[test]
fn dotfiles_are_kept_on_request() {
    let entries = vec![file(".hidden", b"secret")];
    let doc = pack(Packager::new(false, true), &entries, &vec![]);
    assert_eq!(str_of(get(&doc, ".hidden")), Some("c2VjcmV0"));
    let tree = fields_of(get(fields_of(get(&doc, "__META__")), "tree"));
    assert_eq!(str_of(get(tree, ".hidden")), Some("file"));
}

#[test]
fn dot_json_file_is_not_a_configuration_without_dotfiles() {
    let entries = vec![json_file(".x.json", b"{}", obj(vec![field("k", Value::Str(text("v")))]))];
    let doc = pack(Packager::new(false, false), &entries, &vec![]);
    assert!(doc.is_empty());
}

fn meta_with_tree(tree: Vec<Field>) -> Field {
    field("__META__", obj(vec![field("tree", obj(tree))]))
}

#[test]
fn missing_entry_is_a_corrupt_bundle() {
    let doc = vec![
        field("a", Value::Str(text("aGk="))),
        meta_with_tree(vec![field("a", Value::Str(text("file"))), field("gone", Value::Str(text("file")))]),
    ];
    let plan = plan_unpack(&doc);
    assert_eq!(plan.ops.len(), 1);
    match plan.error {
        Some(UnpackError::CorruptBundle { path: p, reason }) => {
            assert_eq!(p, path(&["gone"]));
            assert_eq!(reason, Corruption::MissingEntry);
        },
        other => panic!("unexpected {:?}", other),
    }
}

#[test]
fn directory_entry_must_be_an_object() {
    let doc = vec![field("d", Value::Str(text("x"))), meta_with_tree(vec![field("d", Value::Str(text("dir")))])];
    let plan = plan_unpack(&doc);
    assert!(plan.ops.is_empty());
    assert!(matches!(
        plan.error,
        Some(UnpackError::CorruptBundle { reason: Corruption::NotAnObject, .. })
    ));
}

#[test]
fn file_entry_must_be_a_string() {
    let doc = vec![field("f", obj(vec![])), meta_with_tree(vec![field("f", Value::Str(text("file")))])];
    let plan = plan_unpack(&doc);
    assert!(matches!(
        plan.error,
        Some(UnpackError::CorruptBundle { reason: Corruption::NotAString, .. })
    ));
}

#[test]
fn unknown_kind_is_a_corrupt_bundle() {
    let doc = vec![field("f", Value::Str(text("aGk="))), meta_with_tree(vec![field("f", Value::Str(text("link")))])];
    let plan = plan_unpack(&doc);
    assert!(matches!(
        plan.error,
        Some(UnpackError::CorruptBundle { reason: Corruption::UnknownKind, .. })
    ));
}

#[test]
fn configuration_name_must_be_a_string() {
    let doc = vec![
        field("k", Value::Str(text("v"))),
        field("__META__", obj(vec![field("config_file", Value::Other(text("7")))])),
    ];
    let plan = plan_unpack(&doc);
    assert!(plan.ops.is_empty());
    assert!(matches!(
        plan.error,
        Some(UnpackError::CorruptBundle { reason: Corruption::ConfigNameNotAString, .. })
    ));
}

#[test]
fn malformed_base64_is_a_decode_error() {
    let doc = vec![field("f", Value::Str(text("not base64!"))), meta_with_tree(vec![field("f", Value::Str(text("file")))])];
    let plan = plan_unpack(&doc);
    match plan.error {
        Some(UnpackError::Decode { path: p }) => assert_eq!(p, path(&["f"])),
        other => panic!("unexpected {:?}", other),
    }
}

#[test]
fn directories_are_created_before_their_contents() {
    let doc = vec![
        field(
            "sub",
            obj(vec![field("f", Value::Str(text("aGk="))), meta_with_tree(vec![field("f", Value::Str(text("file")))])]),
        ),
        meta_with_tree(vec![field("sub", Value::Str(text("dir")))]),
    ];
    let plan = plan_unpack(&doc);
    assert!(plan.error.is_none());
    assert_eq!(plan.ops.len(), 2);
    assert!(matches!(&plan.ops[0], WriteOp::CreateDir { path: p } if *p == path(&["sub"])));
    assert!(matches!(&plan.ops[1], WriteOp::WriteFile { path: p, .. } if *p == path(&["sub", "f"])));
}
