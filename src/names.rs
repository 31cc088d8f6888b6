use vstd::prelude::*;

verus! {

/// The file whose presence makes a directory a build unit.
pub const BUILD_CONFIG_FILE_NAME: &'static str = ".build";

/// The extension given to an unpacked build artifact.
pub const WASM_FILE_EXTENSION: &'static str = "wasm";

/// The extension of a directory's configuration file.
pub const JSON_FILE_EXTENSION: &'static str = ".json";

/// The largest file, or build artifact, that a bundle embeds, in bytes.
pub const MAX_EMBEDDED_LEN: usize = usize::MAX / 8;

/// The longest base64 text that unpacking decodes, in bytes.
pub const MAX_BASE64_TEXT_LEN: usize = usize::MAX / 4;

/// The name under which a bundle is written by default.
pub const DEFAULT_BUNDLE_FILE_NAME: &'static str = "bundle.json";

/// The directory, inside a zome, that holds its code.
pub const CODE_DIR_NAME: &'static str = "code";

/// Tag of a plain file in a metadata tree.
pub const META_FILE_ID: &'static str = "file";

/// Tag of a directory in a metadata tree.
pub const META_DIR_ID: &'static str = "dir";

/// Tag of a build artifact in a metadata tree.
pub const META_BIN_ID: &'static str = "bin";

/// Key of the metadata section of a document.
pub const META_SECTION_NAME: &'static str = "__META__";

/// Key of the tree inside a metadata section.
pub const META_TREE_SECTION_NAME: &'static str = "tree";

/// Key of the configuration file's name inside a metadata section.
pub const META_CONFIG_SECTION_NAME: &'static str = "config_file";

/// Key of the steps of a build specification.
pub const BUILD_STEPS_KEY: &'static str = "steps";

/// Key of the artifact path of a build specification.
pub const BUILD_ARTIFACT_KEY: &'static str = "artifact";

} // verus!
