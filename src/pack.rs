use vstd::prelude::*;

use crate::codec::{b64_encoded, encode_bytes, ends_with, starts_with_char};
use crate::names::{
    BUILD_CONFIG_FILE_NAME, JSON_FILE_EXTENSION, META_BIN_ID, META_CONFIG_SECTION_NAME, META_DIR_ID,
    META_FILE_ID, META_SECTION_NAME, META_TREE_SECTION_NAME, MAX_EMBEDDED_LEN,
};
use crate::runner::{spec_build, Build, BuildError, StepModel};
use crate::tree::{find_build, lookup_build, BuildOutcome, Entry, Node};
use crate::value::{
    clone_fields, clone_path, fields_view, insert_field, obj_insert, strings_view, Field, Fields, JVal,
    Value,
};

verus! {

broadcast use crate::value::lemma_value_view;

/// The options of a packing.
#[derive(PartialEq, Eq, Structural, Clone, Copy, Debug)]
pub struct Packager {
    /// Leave out the metadata sections; the bundle can then not be unpacked.
    pub strip_meta: bool,
    /// Keep entries whose name starts with a dot.
    pub preserve_dotfiles: bool,
}

/// Why a directory could not be packed.
#[derive(Debug)]
pub enum PackError {
    /// The configuration file at `path` is not a JSON object.
    InvalidConfig { path: Vec<String> },
    /// The build of the build unit at `path` failed.
    Build { path: Vec<String>, error: BuildError },
    /// No build outcome was given for the build unit at `path`.
    NotBuilt { path: Vec<String> },
    /// The file or artifact at `path` is too large to embed.
    TooLarge { path: Vec<String> },
}

/// The model of a `PackError`.
pub enum PackFailure {
    InvalidConfig(Seq<Seq<char>>),
    Build(Seq<Seq<char>>, BuildError),
    NotBuilt(Seq<Seq<char>>),
    TooLarge(Seq<Seq<char>>),
}

impl PackError {
    pub open spec fn view(&self) -> PackFailure {
        match self {
            PackError::InvalidConfig { path } => PackFailure::InvalidConfig(strings_view(path@)),
            PackError::Build { path, error } => PackFailure::Build(strings_view(path@), *error),
            PackError::NotBuilt { path } => PackFailure::NotBuilt(strings_view(path@)),
            PackError::TooLarge { path } => PackFailure::TooLarge(strings_view(path@)),
        }
    }
}

/// Whether a name starts with a dot.
pub open spec fn is_dotfile(name: Seq<char>) -> bool {
    name.len() > 0 && name[0] == '.'
}

/// Whether a name ends with the configuration extension.
pub open spec fn is_json_name(name: Seq<char>) -> bool {
    JSON_FILE_EXTENSION@.len() <= name.len() && name.subrange(
        name.len() - JSON_FILE_EXTENSION@.len(),
        name.len() as int,
    ) == JSON_FILE_EXTENSION@
}

impl Packager {
    /// Whether the packing looks at an entry at all.
    pub open spec fn included(self, e: Entry) -> bool {
        self.preserve_dotfiles || !is_dotfile(e.name@)
    }

    /// Whether an entry may be the configuration file of its directory.
    pub open spec fn is_config_candidate(self, e: Entry) -> bool {
        self.included(e) && e.node is File && is_json_name(e.name@)
    }

    /// Position of the configuration file among `es`, or `es.len()` when
    /// there is none: the first included regular file with a JSON name.
    pub open spec fn config_pos(self, es: Seq<Entry>) -> int
        decreases es.len(),
    {
        if es.len() == 0 {
            0
        } else if self.is_config_candidate(es[0]) {
            0
        } else {
            1 + self.config_pos(es.drop_first())
        }
    }
}

/// Whether a directory's entries make it a build unit.
pub open spec fn is_build_unit(es: Seq<Entry>) -> bool {
    exists|i: int| 0 <= i < es.len() && #[trigger] es[i].name@ == BUILD_CONFIG_FILE_NAME@
}

/// The fields that a directory's configuration file contributes, where it has one.
pub open spec fn config_seed(p: Packager, path: Seq<Seq<char>>, es: Seq<Entry>) -> Result<
    Fields,
    PackFailure,
> {
    let c = p.config_pos(es);
    if c < es.len() {
        match es[c].node {
            Node::File(f) => match f.json {
                Some(v) => match v@ {
                    JVal::Obj(fs) => Ok(fs),
                    _ => Err(PackFailure::InvalidConfig(path.push(es[c].name@))),
                },
                None => Err(PackFailure::InvalidConfig(path.push(es[c].name@))),
            },
            Node::Dir(_) => Err(PackFailure::InvalidConfig(path.push(es[c].name@))),
        }
    } else {
        Ok(Seq::empty())
    }
}

/// The string value of a tag.
pub open spec fn tag(t: &str) -> JVal {
    JVal::Str(t@)
}

/// The value and the metadata tag under which an entry is packed.
pub open spec fn pack_entry(p: Packager, path: Seq<Seq<char>>, e: Entry, builds: Seq<BuildOutcome>) -> Result<
    (JVal, JVal),
    PackFailure,
>
    decreases e, 0int,
{
    let name = e.name@;
    match e.node {
        Node::File(f) => if f.bytes@.len() <= MAX_EMBEDDED_LEN {
            Ok((JVal::Str(b64_encoded(f.bytes@)), tag(META_FILE_ID)))
        } else {
            Err(PackFailure::TooLarge(path.push(name)))
        },
        Node::Dir(sub) => if is_build_unit(sub@) {
            match lookup_build(builds, path.push(name)) {
                Some(Ok(b)) => if b.len() <= MAX_EMBEDDED_LEN {
                    Ok((JVal::Str(b64_encoded(b)), tag(META_BIN_ID)))
                } else {
                    Err(PackFailure::TooLarge(path.push(name)))
                },
                Some(Err(be)) => Err(PackFailure::Build(path.push(name), be)),
                None => Err(PackFailure::NotBuilt(path.push(name))),
            }
        } else {
            match pack_dir(p, path.push(name), sub@, builds) {
                Ok(d) => Ok((JVal::Obj(d), tag(META_DIR_ID))),
                Err(e) => Err(e),
            }
        },
    }
}

/// The document and the metadata tree of a directory after its first `k`
/// entries.
pub open spec fn pack_entries(
    p: Packager,
    path: Seq<Seq<char>>,
    es: Seq<Entry>,
    builds: Seq<BuildOutcome>,
    k: int,
) -> Result<(Fields, Fields), PackFailure>
    decreases es, k,
{
    if k <= 0 || k > es.len() {
        match config_seed(p, path, es) {
            Ok(seed) => Ok((seed, Seq::empty())),
            Err(e) => Err(e),
        }
    } else {
        match pack_entries(p, path, es, builds, k - 1) {
            Err(e) => Err(e),
            Ok((doc, tree)) => {
                let e = es[k - 1];
                if !p.included(e) || k - 1 == p.config_pos(es) {
                    Ok((doc, tree))
                } else {
                    match pack_entry(p, path, e, builds) {
                        Ok((v, t)) => Ok((obj_insert(doc, e.name@, v), obj_insert(tree, e.name@, t))),
                        Err(f) => Err(f),
                    }
                }
            },
        }
    }
}

/// The metadata section of a directory: the configuration file's name where
/// there is one, then the tree where it is not empty.
pub open spec fn meta_section(config: Option<Seq<char>>, tree: Fields) -> Fields {
    let base: Fields = match config {
        Some(n) => seq![(META_CONFIG_SECTION_NAME@, JVal::Str(n))],
        None => Seq::empty(),
    };
    if tree.len() > 0 {
        obj_insert(base, META_TREE_SECTION_NAME@, JVal::Obj(tree))
    } else {
        base
    }
}

/// A directory's document with its metadata section attached, unless the
/// packing strips it or there is nothing to record.
pub open spec fn with_meta(p: Packager, doc: Fields, config: Option<Seq<char>>, tree: Fields) -> Fields {
    let meta = meta_section(config, tree);
    if p.strip_meta || meta.len() == 0 {
        doc
    } else {
        obj_insert(doc, META_SECTION_NAME@, JVal::Obj(meta))
    }
}

/// The name of a directory's configuration file, where it has one.
pub open spec fn config_name(p: Packager, es: Seq<Entry>) -> Option<Seq<char>> {
    if p.config_pos(es) < es.len() {
        Some(es[p.config_pos(es)].name@)
    } else {
        None
    }
}

/// The document that packing the directory at `path`, with entries `es`, gives.
pub open spec fn pack_dir(p: Packager, path: Seq<Seq<char>>, es: Seq<Entry>, builds: Seq<BuildOutcome>) -> Result<Fields, PackFailure>
    decreases es, es.len() + 1,
{
    match pack_entries(p, path, es, builds, es.len() as int) {
        Ok((doc, tree)) => Ok(with_meta(p, doc, config_name(p, es), tree)),
        Err(e) => Err(e),
    }
}

proof fn lemma_config_pos(p: Packager, es: Seq<Entry>, i: int)
    requires
        0 <= i <= es.len(),
        forall|j: int| 0 <= j < i ==> !p.is_config_candidate(#[trigger] es[j]),
        i < es.len() ==> p.is_config_candidate(es[i]),
    ensures
        p.config_pos(es) == i,
    decreases es.len(),
{
    if es.len() > 0 && i > 0 {
        assert(!p.is_config_candidate(es[0]));
        let t = es.drop_first();
        assert forall|j: int| 0 <= j < i - 1 implies !p.is_config_candidate(#[trigger] t[j]) by {
            assert(t[j] == es[j + 1]);
        }
        lemma_config_pos(p, t, i - 1);
    }
}

proof fn lemma_config_pos_bounds(p: Packager, es: Seq<Entry>)
    ensures
        0 <= p.config_pos(es) <= es.len(),
    decreases es.len(),
{
    if es.len() > 0 {
        lemma_config_pos_bounds(p, es.drop_first());
    }
}

/// Once the walk over a directory failed, it stays failed.
pub proof fn lemma_failure_stays(
    p: Packager,
    path: Seq<Seq<char>>,
    es: Seq<Entry>,
    builds: Seq<BuildOutcome>,
    k: int,
    n: int,
)
    requires
        0 <= k <= n <= es.len(),
        pack_entries(p, path, es, builds, k) is Err,
    ensures
        pack_entries(p, path, es, builds, n) == pack_entries(p, path, es, builds, k),
    decreases n - k,
{
    if n > k {
        lemma_failure_stays(p, path, es, builds, k, n - 1);
    }
}

/// Whether a directory's entries make it a build unit.
pub fn has_build_config(es: &Vec<Entry>) -> (r: bool)
    ensures
        r == is_build_unit(es@),
{
    let target = String::from_str(BUILD_CONFIG_FILE_NAME);
    let mut i: usize = 0;
    while i < es.len()
        invariant
            i <= es@.len(),
            target@ == BUILD_CONFIG_FILE_NAME@,
            forall|j: int| 0 <= j < i ==> #[trigger] es@[j].name@ != BUILD_CONFIG_FILE_NAME@,
        decreases es@.len() - i,
    {
        if es[i].name.eq(&target) {
            return true;
        }
        i = i + 1;
    }
    false
}

impl Packager {
    /// A packing with the given options.
    pub fn new(strip_meta: bool, preserve_dotfiles: bool) -> (r: Packager)
        ensures
            r.strip_meta == strip_meta,
            r.preserve_dotfiles == preserve_dotfiles,
    {
        Packager { strip_meta, preserve_dotfiles }
    }

    /// Whether the packing looks at an entry at all.
    pub fn includes(&self, e: &Entry) -> (r: bool)
        ensures
            r == self.included(*e),
    {
        self.preserve_dotfiles || !starts_with_char(e.name.as_str(), '.')
    }

    /// Position of the configuration file among `es`, or its length.
    pub fn find_config(&self, es: &Vec<Entry>) -> (r: usize)
        ensures
            r == self.config_pos(es@),
    {
        let mut i: usize = 0;
        while i < es.len()
            invariant
                i <= es@.len(),
                forall|j: int| 0 <= j < i ==> !self.is_config_candidate(#[trigger] es@[j]),
            decreases es@.len() - i,
        {
            let e = &es[i];
            if self.includes(e) && matches!(e.node, Node::File(_)) && ends_with(e.name.as_str(), JSON_FILE_EXTENSION) {
                proof {
                    lemma_config_pos(*self, es@, i as int);
                }
                return i;
            }
            i = i + 1;
        }
        proof {
            lemma_config_pos(*self, es@, i as int);
        }
        i
    }
}

impl Packager {
    /// The fields that a directory's configuration file contributes.
    fn seed(&self, path: &Vec<String>, es: &Vec<Entry>, c: usize) -> (r: Result<Vec<Field>, PackError>)
        requires
            c == self.config_pos(es@),
        ensures
            match r {
                Ok(fs) => config_seed(*self, strings_view(path@), es@) == Ok::<Fields, PackFailure>(fields_view(fs@)),
                Err(e) => config_seed(*self, strings_view(path@), es@) == Err::<Fields, PackFailure>(e@),
            },
    {
        if c < es.len() {
            let invalid = || -> (r: PackError)
                ensures
                    r@ == PackFailure::InvalidConfig(strings_view(path@).push(es@[c as int].name@)),
            {
                let mut p = clone_path(path);
                p.push(es[c].name.clone());
                assert(strings_view(p@) =~= strings_view(path@).push(es@[c as int].name@));
                PackError::InvalidConfig { path: p }
            };
            match &es[c].node {
                Node::File(f) => match &f.json {
                    Some(Value::Obj(fs)) => {
                        proof {
                            crate::value::lemma_value_view(Value::Obj(*fs));
                        }
                        Ok(clone_fields(fs))
                    },
                    _ => Err(invalid()),
                },
                Node::Dir(_) => Err(invalid()),
            }
        } else {
            let empty: Vec<Field> = Vec::new();
            assert(fields_view(empty@) =~= Seq::empty());
            Ok(empty)
        }
    }

    /// Packs the directory at `path` (relative to the root of the packing),
    /// whose entries are `entries`, into the fields of its document; the
    /// build units in it take their artifacts from `builds`.
    pub fn bundle_recurse(
        &self,
        path: &Vec<String>,
        entries: &Vec<Entry>,
        builds: &Vec<BuildOutcome>,
    ) -> (r: Result<Vec<Field>, PackError>)
        ensures
            match r {
                Ok(fs) => pack_dir(*self, strings_view(path@), entries@, builds@) == Ok::<Fields, PackFailure>(
                    fields_view(fs@),
                ),
                Err(e) => pack_dir(*self, strings_view(path@), entries@, builds@) == Err::<Fields, PackFailure>(e@),
            },
        decreases entries@, entries@.len() + 1,
    {
        let ghost pv = strings_view(path@);
        let c = self.find_config(entries);
        proof {
            lemma_config_pos_bounds(*self, entries@);
        }
        let mut doc = match self.seed(path, entries, c) {
            Ok(d) => d,
            Err(e) => {
                proof {
                    lemma_failure_stays(*self, pv, entries@, builds@, 0, entries@.len() as int);
                }
                return Err(e);
            },
        };
        let mut tree: Vec<Field> = Vec::new();
        assert(fields_view(tree@) =~= Seq::empty());
        let mut i: usize = 0;
        while i < entries.len()
            invariant
                i <= entries@.len(),
                c == self.config_pos(entries@),
                pv == strings_view(path@),
                pack_entries(*self, pv, entries@, builds@, i as int) == Ok::<(Fields, Fields), PackFailure>(
                    (fields_view(doc@), fields_view(tree@)),
                ),
            decreases entries@.len() - i,
        {
            let e = &entries[i];
            if self.includes(e) && i != c {
                let mut sub_path = clone_path(path);
                sub_path.push(e.name.clone());
                assert(strings_view(sub_path@) =~= pv.push(e.name@));
                match &e.node {
                    Node::File(f) => {
                        if f.bytes.len() > MAX_EMBEDDED_LEN {
                            let err = PackError::TooLarge { path: sub_path };
                            assert(pack_entry(*self, pv, entries@[i as int], builds@) is Err);
                            proof {
                                lemma_failure_stays(*self, pv, entries@, builds@, i + 1, entries@.len() as int);
                            }
                            return Err(err);
                        }
                        let text = encode_bytes(&f.bytes);
                        insert_field(&mut doc, e.name.clone(), Value::Str(text));
                        insert_field(&mut tree, e.name.clone(), Value::Str(String::from_str(META_FILE_ID)));
                    },
                    Node::Dir(sub) => {
                        if has_build_config(sub) {
                            match find_build(builds, &sub_path) {
                                Some(j) => match &builds[j].result {
                                    Ok(b) => {
                                        if b.len() > MAX_EMBEDDED_LEN {
                                            let err = PackError::TooLarge { path: sub_path };
                                            assert(pack_entry(*self, pv, entries@[i as int], builds@) is Err);
                                            proof {
                                                lemma_failure_stays(*self, pv, entries@, builds@, i + 1, entries@.len() as int);
                                            }
                                            return Err(err);
                                        }
                                        let text = encode_bytes(b);
                                        insert_field(&mut doc, e.name.clone(), Value::Str(text));
                                        insert_field(
                                            &mut tree,
                                            e.name.clone(),
                                            Value::Str(String::from_str(META_BIN_ID)),
                                        );
                                    },
                                    Err(be) => {
                                        let err = PackError::Build { path: sub_path, error: *be };
                                        assert(pack_entry(*self, pv, entries@[i as int], builds@) is Err);
                                        proof {
                                            lemma_failure_stays(*self, pv, entries@, builds@, i + 1, entries@.len() as int);
                                        }
                                        return Err(err);
                                    },
                                },
                                None => {
                                    let err = PackError::NotBuilt { path: sub_path };
                                    assert(pack_entry(*self, pv, entries@[i as int], builds@) is Err);
                                    proof {
                                        lemma_failure_stays(*self, pv, entries@, builds@, i + 1, entries@.len() as int);
                                    }
                                    return Err(err);
                                },
                            }
                        } else {
                            match self.bundle_recurse(&sub_path, sub, builds) {
                                Ok(d) => {
                                    insert_field(&mut doc, e.name.clone(), Value::Obj(d));
                                    insert_field(
                                        &mut tree,
                                        e.name.clone(),
                                        Value::Str(String::from_str(META_DIR_ID)),
                                    );
                                },
                                Err(err) => {
                                    assert(pack_entry(*self, pv, entries@[i as int], builds@) is Err);
                                    proof {
                                        lemma_failure_stays(*self, pv, entries@, builds@, i + 1, entries@.len() as int);
                                    }
                                    return Err(err);
                                },
                            }
                        }
                    },
                }
            }
            i = i + 1;
        }
        if !self.strip_meta {
            let mut meta: Vec<Field> = Vec::new();
            if c < entries.len() {
                meta.push(
                    Field {
                        key: String::from_str(META_CONFIG_SECTION_NAME),
                        value: Value::Str(entries[c].name.clone()),
                    },
                );
            }
            assert(fields_view(meta@) =~= meta_section(config_name(*self, entries@), Seq::empty()));
            if tree.len() > 0 {
                insert_field(&mut meta, String::from_str(META_TREE_SECTION_NAME), Value::Obj(tree));
            }
            if meta.len() > 0 {
                insert_field(&mut doc, String::from_str(META_SECTION_NAME), Value::Obj(meta));
            }
        }
        Ok(doc)
    }

    /// Packs a directory, given by its entries, into a bundle document.
    pub fn bundle(&self, entries: &Vec<Entry>, builds: &Vec<BuildOutcome>) -> (r: Result<Value, PackError>)
        ensures
            match r {
                Ok(v) => pack_dir(*self, Seq::empty(), entries@, builds@) == Ok::<Fields, PackFailure>(v@->Obj_0) && v is Obj,
                Err(e) => pack_dir(*self, Seq::empty(), entries@, builds@) == Err::<Fields, PackFailure>(e@),
            },
    {
        let root: Vec<String> = Vec::new();
        assert(strings_view(root@) =~= Seq::empty());
        match self.bundle_recurse(&root, entries, builds) {
            Ok(fs) => Ok(Value::Obj(fs)),
            Err(e) => Err(e),
        }
    }
}

/// Position of the first entry named like the build specification file, or
/// the length when there is none.
pub open spec fn build_config_pos(es: Seq<Entry>) -> int
    decreases es.len(),
{
    if es.len() == 0 {
        0
    } else if es[0].name@ == BUILD_CONFIG_FILE_NAME@ {
        0
    } else {
        1 + build_config_pos(es.drop_first())
    }
}

proof fn lemma_build_config_pos(es: Seq<Entry>, i: int)
    requires
        0 <= i <= es.len(),
        forall|j: int| 0 <= j < i ==> #[trigger] es[j].name@ != BUILD_CONFIG_FILE_NAME@,
        i < es.len() ==> es[i].name@ == BUILD_CONFIG_FILE_NAME@,
    ensures
        build_config_pos(es) == i,
    decreases es.len(),
{
    if es.len() > 0 && i > 0 {
        assert(es[0].name@ != BUILD_CONFIG_FILE_NAME@);
        let t = es.drop_first();
        assert forall|j: int| 0 <= j < i - 1 implies #[trigger] t[j].name@ != BUILD_CONFIG_FILE_NAME@ by {
            assert(t[j] == es[j + 1]);
        }
        lemma_build_config_pos(t, i - 1);
    }
}

/// The build specification of a build unit with entries `es`: the JSON
/// content of its build specification file, read as a build.
pub open spec fn unit_build(es: Seq<Entry>) -> Option<(Seq<StepModel>, Seq<char>)> {
    let i = build_config_pos(es);
    if i < es.len() {
        match es[i].node {
            Node::File(f) => match f.json {
                Some(v) => spec_build(v@),
                None => None,
            },
            Node::Dir(_) => None,
        }
    } else {
        None
    }
}

/// The build units that packing the first `k` entries of the directory at
/// `path` reaches, in the order of the walk, each with its entries.
pub open spec fn units_in(p: Packager, path: Seq<Seq<char>>, es: Seq<Entry>, k: int) -> Seq<
    (Seq<Seq<char>>, Seq<Entry>),
>
    decreases es, k,
{
    if k <= 0 || k > es.len() {
        Seq::empty()
    } else {
        let e = es[k - 1];
        let before = units_in(p, path, es, k - 1);
        if !p.included(e) || k - 1 == p.config_pos(es) {
            before
        } else {
            match e.node {
                Node::File(_) => before,
                Node::Dir(sub) => if is_build_unit(sub@) {
                    before.push((path.push(e.name@), sub@))
                } else {
                    before + units_dir(p, path.push(e.name@), sub@)
                },
            }
        }
    }
}

/// The build units that packing the directory at `path` reaches.
pub open spec fn units_dir(p: Packager, path: Seq<Seq<char>>, es: Seq<Entry>) -> Seq<
    (Seq<Seq<char>>, Seq<Entry>),
>
    decreases es, es.len() + 1,
{
    units_in(p, path, es, es.len() as int)
}

/// A build that packing needs: the path of its build unit and the build
/// specification found there.
#[derive(Debug)]
pub struct BuildRequest {
    pub path: Vec<String>,
    pub spec: Result<Build, BuildError>,
}

/// Whether a request is the one for a build unit at `path` with entries `es`.
pub open spec fn requests_unit(r: BuildRequest, path: Seq<Seq<char>>, es: Seq<Entry>) -> bool {
    &&& strings_view(r.path@) == path
    &&& match r.spec {
        Ok(b) => unit_build(es) == Some((b.steps_view(), b.artifact@)),
        Err(e) => unit_build(es) is None && e == BuildError::InvalidSpec,
    }
}

impl Build {
    /// The build specification of a build unit, given by its entries.
    pub fn from_unit(es: &Vec<Entry>) -> (r: Result<Build, BuildError>)
        ensures
            match r {
                Ok(b) => unit_build(es@) == Some((b.steps_view(), b.artifact@)),
                Err(e) => unit_build(es@) is None && e == BuildError::InvalidSpec,
            },
    {
        let target = String::from_str(BUILD_CONFIG_FILE_NAME);
        let mut i: usize = 0;
        while i < es.len()
            invariant
                i <= es@.len(),
                target@ == BUILD_CONFIG_FILE_NAME@,
                forall|j: int| 0 <= j < i ==> #[trigger] es@[j].name@ != BUILD_CONFIG_FILE_NAME@,
            decreases es@.len() - i,
        {
            if es[i].name.eq(&target) {
                proof {
                    lemma_build_config_pos(es@, i as int);
                }
                return match &es[i].node {
                    Node::File(f) => match &f.json {
                        Some(v) => Build::from_value(v),
                        None => Err(BuildError::InvalidSpec),
                    },
                    Node::Dir(_) => Err(BuildError::InvalidSpec),
                };
            }
            i = i + 1;
        }
        proof {
            lemma_build_config_pos(es@, i as int);
        }
        Err(BuildError::InvalidSpec)
    }
}

impl Packager {
    /// Appends to `out` the builds that packing the directory at `path`,
    /// with entries `entries`, needs, in the order in which it reaches them.
    pub fn collect_builds(&self, path: &Vec<String>, entries: &Vec<Entry>, out: &mut Vec<BuildRequest>)
        ensures
            final(out)@.len() == old(out)@.len() + units_dir(*self, strings_view(path@), entries@).len(),
            forall|i: int| 0 <= i < old(out)@.len() ==> #[trigger] final(out)@[i] == old(out)@[i],
            forall|i: int|
                0 <= i < units_dir(*self, strings_view(path@), entries@).len() ==> requests_unit(
                    #[trigger] final(out)@[old(out)@.len() + i],
                    units_dir(*self, strings_view(path@), entries@)[i].0,
                    units_dir(*self, strings_view(path@), entries@)[i].1,
                ),
        decreases entries@, entries@.len() + 1,
    {
        let ghost pv = strings_view(path@);
        let ghost start = old(out)@;
        let c = self.find_config(entries);
        let mut i: usize = 0;
        while i < entries.len()
            invariant
                i <= entries@.len(),
                c == self.config_pos(entries@),
                pv == strings_view(path@),
                start == old(out)@,
                out@.len() == start.len() + units_in(*self, pv, entries@, i as int).len(),
                forall|j: int| 0 <= j < start.len() ==> #[trigger] out@[j] == start[j],
                forall|j: int|
                    0 <= j < units_in(*self, pv, entries@, i as int).len() ==> requests_unit(
                        #[trigger] out@[start.len() + j],
                        units_in(*self, pv, entries@, i as int)[j].0,
                        units_in(*self, pv, entries@, i as int)[j].1,
                    ),
            decreases entries@.len() - i,
        {
            let e = &entries[i];
            let ghost before = out@;
            let ghost prev_units = units_in(*self, pv, entries@, i as int);
            if self.includes(e) && i != c {
                if let Node::Dir(sub) = &e.node {
                    let mut sub_path = clone_path(path);
                    sub_path.push(e.name.clone());
                    assert(strings_view(sub_path@) =~= pv.push(e.name@));
                    if has_build_config(sub) {
                        let spec = Build::from_unit(sub);
                        out.push(BuildRequest { path: sub_path, spec });
                        assert(units_in(*self, pv, entries@, i as int + 1) == prev_units.push((pv.push(e.name@), sub@)));
                        assert forall|j: int|
                            0 <= j < units_in(*self, pv, entries@, i as int + 1).len() implies requests_unit(
                                #[trigger] out@[start.len() + j],
                                units_in(*self, pv, entries@, i as int + 1)[j].0,
                                units_in(*self, pv, entries@, i as int + 1)[j].1,
                            ) by {
                            if j < prev_units.len() {
                                assert(out@[start.len() + j] == before[start.len() + j]);
                            }
                        }
                    } else {
                        self.collect_builds(&sub_path, sub, out);
                        let ghost sub_units = units_dir(*self, pv.push(e.name@), sub@);
                        assert(units_in(*self, pv, entries@, i as int + 1) == prev_units + sub_units);
                        assert forall|j: int|
                            0 <= j < units_in(*self, pv, entries@, i as int + 1).len() implies requests_unit(
                                #[trigger] out@[start.len() + j],
                                units_in(*self, pv, entries@, i as int + 1)[j].0,
                                units_in(*self, pv, entries@, i as int + 1)[j].1,
                            ) by {
                            if j < prev_units.len() {
                                assert(out@[start.len() + j] == before[start.len() + j]);
                            } else {
                                let m = j - prev_units.len();
                                assert(out@[before.len() + m] == out@[start.len() + j]);
                            }
                        }
                    }
                }
            }
            i = i + 1;
        }
    }

    /// The builds that packing a directory, given by its entries, needs, in
    /// the order in which it reaches them.
    pub fn build_requests(&self, entries: &Vec<Entry>) -> (r: Vec<BuildRequest>)
        ensures
            r@.len() == units_dir(*self, Seq::empty(), entries@).len(),
            forall|i: int|
                0 <= i < r@.len() ==> requests_unit(
                    #[trigger] r@[i],
                    units_dir(*self, Seq::empty(), entries@)[i].0,
                    units_dir(*self, Seq::empty(), entries@)[i].1,
                ),
    {
        let root: Vec<String> = Vec::new();
        assert(strings_view(root@) =~= Seq::empty());
        let mut out: Vec<BuildRequest> = Vec::new();
        self.collect_builds(&root, entries, &mut out);
        assert forall|i: int| 0 <= i < out@.len() implies requests_unit(
            #[trigger] out@[i],
            units_dir(*self, Seq::empty(), entries@)[i].0,
            units_dir(*self, Seq::empty(), entries@)[i].1,
        ) by {
            assert(out@[0 + i] == out@[i]);
        }
        out
    }
}

} // verus!
