use vstd::prelude::*;

use crate::runner::Build;

verus! {

/// The directory that `Path::parent` gives for a path, if any.
pub uninterp spec fn parent_of(path: Seq<char>) -> Option<Seq<char>>;

/// Relies on `std::path::Path::parent`: the path without its last
/// component, or `None` for a root or an empty path; the result depends on
/// the text alone.
#[verifier::external_body]
fn parent(path: &str) -> (r: Option<String>)
    ensures
        match r {
            Some(s) => parent_of(path@) == Some(s@),
            None => parent_of(path@) is None,
        },
{
    std::path::Path::new(path).parent().map(|p| p.to_string_lossy().into_owned())
}

/// A text with each slash turned into a dash.
pub open spec fn dashes(s: Seq<char>) -> Seq<char> {
    Seq::new(s.len(), |i: int| if s[i] == '/' { '-' } else { s[i] })
}

/// Relies on `str::replace` with a `char` pattern: every `/` becomes `-`.
#[verifier::external_body]
fn replace_slashes(s: &str) -> (r: String)
    ensures
        r@ == dashes(s@),
{
    s.replace('/', "-")
}

/// The zome name for a code directory at `[zome]/code`: the parent path
/// with slashes turned into dashes, or `myzome` where there is no parent.
pub open spec fn zome_name(base_path: Seq<char>) -> Seq<char> {
    match parent_of(base_path) {
        Some(p) => dashes(p),
        None => "myzome"@,
    }
}

/// The zome name for a code directory at `[zome]/code`.
pub fn get_zome_name(base_path: &str) -> (r: String)
    ensures
        r@ == zome_name(base_path@),
{
    match parent(base_path) {
        Some(p) => replace_slashes(p.as_str()),
        None => {
            proof {
                reveal_strlit("myzome");
            }
            "myzome".to_owned()
        },
    }
}

/// The scaffold of a zome written in AssemblyScript.
#[derive(Debug)]
pub struct AssemblyScriptScaffold {
    pub build_template: Build,
}

impl AssemblyScriptScaffold {
    /// The scaffold, whose build compiles `index.ts` into `module.wasm`.
    pub fn new() -> (r: AssemblyScriptScaffold)
        ensures
            r.build_template.artifact@ == "module.wasm"@,
            r.build_template.steps_view() == seq![
                ("./node_modules/assemblyscript/bin/asc"@, seq!["index.ts"@, "-b"@, "module.wasm"@]),
            ],
    {
        let args: [&str; 3] = ["index.ts", "-b", "module.wasm"];
        let b = Build::with_artifact("module.wasm").cmd("./node_modules/assemblyscript/bin/asc", &args);
        assert(b.steps_view()[0].1 =~= seq!["index.ts"@, "-b"@, "module.wasm"@]);
        assert(b.steps_view() =~= seq![
            ("./node_modules/assemblyscript/bin/asc"@, seq!["index.ts"@, "-b"@, "module.wasm"@]),
        ]);
        AssemblyScriptScaffold { build_template: b }
    }
}

/// The scaffold of a zome written in Rust.
#[derive(Debug)]
pub struct RustScaffold {
    pub build_template: Build,
}

impl RustScaffold {
    /// The scaffold, whose build runs cargo for the wasm target.
    pub fn new() -> (r: RustScaffold)
        ensures
            r.build_template.artifact@ == "target/wasm32-unknown-unknown/release/code.wasm"@,
            r.build_template.steps_view() == seq![
                ("cargo"@, seq!["build"@, "--release"@, "--target=wasm32-unknown-unknown"@]),
            ],
    {
        let args: [&str; 3] = ["build", "--release", "--target=wasm32-unknown-unknown"];
        let b = Build::with_artifact("target/wasm32-unknown-unknown/release/code.wasm").cmd("cargo", &args);
        assert(b.steps_view()[0].1 =~= seq!["build"@, "--release"@, "--target=wasm32-unknown-unknown"@]);
        assert(b.steps_view() =~= seq![
            ("cargo"@, seq!["build"@, "--release"@, "--target=wasm32-unknown-unknown"@]),
        ]);
        RustScaffold { build_template: b }
    }
}

} // verus!
