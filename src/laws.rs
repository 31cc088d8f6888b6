use vstd::prelude::*;
use vstd::utf8::encode_utf8;

use crate::codec::{b64_decoded, b64_encoded, path_with_extension};
use crate::names::{
    META_BIN_ID, META_CONFIG_SECTION_NAME, META_DIR_ID, META_FILE_ID, META_SECTION_NAME,
    META_TREE_SECTION_NAME, MAX_BASE64_TEXT_LEN, MAX_EMBEDDED_LEN, WASM_FILE_EXTENSION,
};
use crate::pack::{
    config_name, config_seed, is_build_unit, lemma_failure_stays, is_dotfile, meta_section, pack_dir, pack_entries, pack_entry,
    tag, with_meta, PackFailure, Packager,
};
use crate::runner::BuildError;
use crate::tree::{lookup_build, BuildOutcome, Entry, Node};
use crate::unpack::{
    lemma_error_stays, lemma_leftover_concat, lemma_leftover_drops, lemma_leftover_keeps, leftover, tree_of, unpack_dir,
    unpack_entries, Corruption, Op, UnpackFailure,
};
use crate::value::{
    has_key, lemma_fresh_insert, lemma_key_pos, lemma_get_has, lemma_insert_get, lemma_key_pos_bounds, obj_get, obj_insert,
    Fields, JVal,
};

verus! {

/// A failed build makes the packing fail: where a build unit that the
/// packing reaches has a failed build, packing its directory gives no
/// document; and where the entries before it packed without error, the
/// failure is that build's, reported at the build unit's path.
pub proof fn lemma_build_failure_propagates(
    p: Packager,
    path: Seq<Seq<char>>,
    es: Seq<Entry>,
    builds: Seq<BuildOutcome>,
    k: int,
    e: BuildError,
)
    requires
        0 <= k < es.len(),
        p.included(es[k]),
        k != p.config_pos(es),
        es[k].node is Dir,
        is_build_unit(es[k].node->Dir_0@),
        lookup_build(builds, path.push(es[k].name@)) == Some(Err::<Seq<u8>, BuildError>(e)),
    ensures
        pack_dir(p, path, es, builds) is Err,
        pack_entries(p, path, es, builds, k) is Ok ==> pack_dir(p, path, es, builds) == Err::<
            Fields,
            PackFailure,
        >(PackFailure::Build(path.push(es[k].name@), e)),
{
    if pack_entries(p, path, es, builds, k) is Err {
        lemma_failure_stays(p, path, es, builds, k, es.len() as int);
    } else {
        assert(pack_entry(p, path, es[k], builds) == Err::<(JVal, JVal), PackFailure>(
            PackFailure::Build(path.push(es[k].name@), e),
        ));
        assert(pack_entries(p, path, es, builds, k + 1) == Err::<(Fields, Fields), PackFailure>(
            PackFailure::Build(path.push(es[k].name@), e),
        ));
        lemma_failure_stays(p, path, es, builds, k + 1, es.len() as int);
    }
}

/// Whether the packing of a directory reaches, at some depth, a build unit
/// whose build failed.
pub open spec fn reaches_failed_build(p: Packager, path: Seq<Seq<char>>, es: Seq<Entry>, builds: Seq<BuildOutcome>) -> bool
    decreases es,
{
    exists|i: int|
        0 <= i < es.len() && p.included(es[i]) && i != p.config_pos(es) && match #[trigger] es[i].node {
            Node::Dir(sub) => if is_build_unit(sub@) {
                lookup_build(builds, path.push(es[i].name@)) matches Some(Err(_))
            } else {
                reaches_failed_build(p, path.push(es[i].name@), sub@, builds)
            },
            Node::File(_) => false,
        }
}

/// A failed build anywhere in the tree makes the packing of the whole tree
/// fail.
pub proof fn lemma_nested_build_failure(p: Packager, path: Seq<Seq<char>>, es: Seq<Entry>, builds: Seq<BuildOutcome>)
    requires
        reaches_failed_build(p, path, es, builds),
    ensures
        pack_dir(p, path, es, builds) is Err,
    decreases es,
{
    let i = choose|i: int|
        0 <= i < es.len() && p.included(es[i]) && i != p.config_pos(es) && match #[trigger] es[i].node {
            Node::Dir(sub) => if is_build_unit(sub@) {
                lookup_build(builds, path.push(es[i].name@)) matches Some(Err(_))
            } else {
                reaches_failed_build(p, path.push(es[i].name@), sub@, builds)
            },
            Node::File(_) => false,
        };
    if pack_entries(p, path, es, builds, i) is Err {
        lemma_failure_stays(p, path, es, builds, i, es.len() as int);
    } else {
        if let Node::Dir(sub) = es[i].node {
            if !is_build_unit(sub@) {
                lemma_nested_build_failure(p, path.push(es[i].name@), sub@, builds);
            }
        }
        assert(pack_entry(p, path, es[i], builds) is Err);
        lemma_failure_stays(p, path, es, builds, i + 1, es.len() as int);
    }
}

/// A tree entry that names a key absent from the document makes unpacking
/// fail; where the entries before it went through, the failure is a
/// corrupt bundle at that entry's path, and the writes made are those of the
/// entries before it.
pub proof fn lemma_missing_entry_rejected(doc: Fields, dir: Seq<Seq<char>>, j: int)
    requires
        obj_get(doc, META_SECTION_NAME@) matches Some(JVal::Obj(_)),
        0 <= j < tree_of(obj_get(doc, META_SECTION_NAME@)->0->Obj_0).len(),
        !has_key(doc, tree_of(obj_get(doc, META_SECTION_NAME@)->0->Obj_0)[j].0),
    ensures
        unpack_dir(doc, dir).1 is Some,
        ({
            let t = tree_of(obj_get(doc, META_SECTION_NAME@)->0->Obj_0);
            unpack_entries(doc, dir, t, j).1 is None ==> unpack_dir(doc, dir) == (
                unpack_entries(doc, dir, t, j).0,
                Some(UnpackFailure::CorruptBundle(dir.push(t[j].0), Corruption::MissingEntry)),
            )
        }),
{
    let t = tree_of(obj_get(doc, META_SECTION_NAME@)->0->Obj_0);
    lemma_key_pos_bounds(doc, t[j].0);
    if unpack_entries(doc, dir, t, j).1 is Some {
        lemma_error_stays(doc, dir, t, j, t.len() as int);
    } else {
        lemma_error_stays(doc, dir, t, j + 1, t.len() as int);
    }
}

/// A tree entry tagged as a directory whose value is not an object makes
/// unpacking fail; where the entries before it went through, the failure is
/// a corrupt bundle at that entry's path.
pub proof fn lemma_dir_not_object_rejected(doc: Fields, dir: Seq<Seq<char>>, j: int)
    requires
        obj_get(doc, META_SECTION_NAME@) matches Some(JVal::Obj(_)),
        0 <= j < tree_of(obj_get(doc, META_SECTION_NAME@)->0->Obj_0).len(),
        tree_of(obj_get(doc, META_SECTION_NAME@)->0->Obj_0)[j].1 == JVal::Str(META_DIR_ID@),
        tree_of(obj_get(doc, META_SECTION_NAME@)->0->Obj_0)[j].0 != META_SECTION_NAME@,
        obj_get(doc, tree_of(obj_get(doc, META_SECTION_NAME@)->0->Obj_0)[j].0) matches Some(v)
            && !(v is Obj),
    ensures
        unpack_dir(doc, dir).1 is Some,
        ({
            let t = tree_of(obj_get(doc, META_SECTION_NAME@)->0->Obj_0);
            unpack_entries(doc, dir, t, j).1 is None ==> unpack_dir(doc, dir) == (
                unpack_entries(doc, dir, t, j).0,
                Some(UnpackFailure::CorruptBundle(dir.push(t[j].0), Corruption::NotAnObject)),
            )
        }),
{
    let t = tree_of(obj_get(doc, META_SECTION_NAME@)->0->Obj_0);
    lemma_key_pos_bounds(doc, t[j].0);
    reveal_strlit("dir");
    reveal_strlit("file");
    reveal_strlit("bin");
    assert(META_DIR_ID@.len() == 3 && META_FILE_ID@.len() == 4 && META_DIR_ID@[0] != META_BIN_ID@[0]);
    assert(META_DIR_ID@ != META_FILE_ID@ && META_DIR_ID@ != META_BIN_ID@);
    if unpack_entries(doc, dir, t, j).1 is Some {
        lemma_error_stays(doc, dir, t, j, t.len() as int);
    } else {
        lemma_error_stays(doc, dir, t, j + 1, t.len() as int);
    }
}

/// A configuration file name that is not a string makes unpacking fail
/// once the tree went through.
pub proof fn lemma_config_name_rejected(doc: Fields, dir: Seq<Seq<char>>)
    requires
        obj_get(doc, META_SECTION_NAME@) matches Some(JVal::Obj(meta)) && obj_get(
            meta,
            META_CONFIG_SECTION_NAME@,
        ) matches Some(n) && !(n is Str),
    ensures
        ({
            let t = tree_of(obj_get(doc, META_SECTION_NAME@)->0->Obj_0);
            unpack_entries(doc, dir, t, t.len() as int).1 is None ==> unpack_dir(doc, dir) == (
                unpack_entries(doc, dir, t, t.len() as int).0,
                Some(UnpackFailure::CorruptBundle(dir, Corruption::ConfigNameNotAString)),
            )
        }),
{
}

/// What the laws below take from base64: decoding gives back the bytes
/// that encoding turned into a text, and the text of bytes small enough to
/// embed is short enough to decode.
pub open spec fn codec_round_trips() -> bool {
    forall|b: Seq<u8>|
        b.len() <= MAX_EMBEDDED_LEN ==> #[trigger] b64_decoded(b64_encoded(b)) == Some(b) && encode_utf8(
            b64_encoded(b),
        ).len() <= MAX_BASE64_TEXT_LEN
}

/// Whether the entries of a directory have distinct names.
pub open spec fn names_unique(es: Seq<Entry>) -> bool {
    forall|i: int, j: int|
        0 <= i < es.len() && 0 <= j < es.len() && i != j ==> #[trigger] es[i].name@ != #[trigger] es[j].name@
}

/// What the walk wrote under an entry's name stays there to the end of the
/// walk, as names in a directory are distinct.
proof fn lemma_entry_kept(
    p: Packager,
    path: Seq<Seq<char>>,
    es: Seq<Entry>,
    builds: Seq<BuildOutcome>,
    j: int,
    n: int,
)
    requires
        names_unique(es),
        0 <= j < n <= es.len(),
        pack_entries(p, path, es, builds, n) is Ok,
    ensures
        pack_entries(p, path, es, builds, j + 1) is Ok,
        obj_get(pack_entries(p, path, es, builds, n)->Ok_0.0, es[j].name@) == obj_get(
            pack_entries(p, path, es, builds, j + 1)->Ok_0.0,
            es[j].name@,
        ),
        obj_get(pack_entries(p, path, es, builds, n)->Ok_0.1, es[j].name@) == obj_get(
            pack_entries(p, path, es, builds, j + 1)->Ok_0.1,
            es[j].name@,
        ),
    decreases n,
{
    if n > j + 1 {
        if pack_entries(p, path, es, builds, n - 1) is Err {
            lemma_failure_stays(p, path, es, builds, n - 1, n);
        }
        lemma_entry_kept(p, path, es, builds, j, n - 1);
        let (d, t) = pack_entries(p, path, es, builds, n - 1)->Ok_0;
        let e = es[n - 1];
        assert(e.name@ != es[j].name@);
        lemma_insert_get(d, e.name@, JVal::Str(Seq::empty()), es[j].name@);
        let (d2, t2) = pack_entries(p, path, es, builds, n)->Ok_0;
        if p.included(e) && n - 1 != p.config_pos(es) {
            lemma_insert_get(d, e.name@, pack_entry(p, path, e, builds)->Ok_0.0, es[j].name@);
            lemma_insert_get(t, e.name@, pack_entry(p, path, e, builds)->Ok_0.1, es[j].name@);
        }
    }
}

/// Whether no directory of a tree brings a metadata key of its own, at any
/// depth: no entry is named like it, and no configuration file has it as a
/// key.
pub open spec fn free_of_meta_key(p: Packager, path: Seq<Seq<char>>, es: Seq<Entry>) -> bool
    decreases es,
{
    &&& forall|i: int| 0 <= i < es.len() ==> #[trigger] es[i].name@ != META_SECTION_NAME@
    &&& config_seed(p, path, es) matches Ok(seed) ==> !has_key(seed, META_SECTION_NAME@)
    &&& forall|i: int|
        0 <= i < es.len() ==> match #[trigger] es[i].node {
            Node::Dir(sub) => free_of_meta_key(p, path.push(es[i].name@), sub@),
            Node::File(_) => true,
        }
}

/// Whether the document `d` packed from a directory, and the document of
/// every directory packed inside it, has no metadata section.
pub open spec fn meta_free(p: Packager, path: Seq<Seq<char>>, es: Seq<Entry>, builds: Seq<BuildOutcome>, d: Fields) -> bool
    decreases es,
{
    &&& !has_key(d, META_SECTION_NAME@)
    &&& forall|i: int|
        0 <= i < es.len() ==> match #[trigger] es[i].node {
            Node::Dir(sub) => pack_dir(p, path.push(es[i].name@), sub@, builds) matches Ok(sd)
                ==> meta_free(p, path.push(es[i].name@), sub@, builds, sd),
            Node::File(_) => true,
        }
}

/// Packing with metadata stripped leaves no metadata section in the
/// document of any directory, and unpacking the document writes nothing.
/// (A configuration file with a metadata key of its own, or an entry named
/// like that key, would bring one in.)
pub proof fn lemma_strip_meta_irreversible(
    p: Packager,
    path: Seq<Seq<char>>,
    es: Seq<Entry>,
    builds: Seq<BuildOutcome>,
    dir: Seq<Seq<char>>,
)
    requires
        p.strip_meta,
        free_of_meta_key(p, path, es),
    ensures
        pack_dir(p, path, es, builds) matches Ok(d) ==> meta_free(p, path, es, builds, d)
            && unpack_dir(d, dir) == (Seq::<Op>::empty(), None::<UnpackFailure>),
    decreases es,
{
    lemma_no_meta_key(p, path, es, builds, es.len() as int);
    if pack_dir(p, path, es, builds) is Ok {
        let d = pack_dir(p, path, es, builds)->Ok_0;
        lemma_get_has(d, META_SECTION_NAME@);
        assert forall|i: int| 0 <= i < es.len() implies match #[trigger] es[i].node {
            Node::Dir(sub) => pack_dir(p, path.push(es[i].name@), sub@, builds) matches Ok(sd)
                ==> meta_free(p, path.push(es[i].name@), sub@, builds, sd),
            Node::File(_) => true,
        } by {
            if let Node::Dir(sub) = es[i].node {
                lemma_strip_meta_irreversible(p, path.push(es[i].name@), sub@, builds, dir);
            }
        }
    }
}

proof fn lemma_no_meta_key(p: Packager, path: Seq<Seq<char>>, es: Seq<Entry>, builds: Seq<BuildOutcome>, k: int)
    requires
        0 <= k <= es.len(),
        config_seed(p, path, es) matches Ok(seed) ==> !has_key(seed, META_SECTION_NAME@),
        forall|i: int| 0 <= i < es.len() ==> #[trigger] es[i].name@ != META_SECTION_NAME@,
    ensures
        pack_entries(p, path, es, builds, k) matches Ok((d, t)) ==> !has_key(d, META_SECTION_NAME@),
    decreases k,
{
    if k > 0 {
        lemma_no_meta_key(p, path, es, builds, k - 1);
        if pack_entries(p, path, es, builds, k) is Ok {
            if pack_entries(p, path, es, builds, k - 1) is Err {
                lemma_failure_stays(p, path, es, builds, k - 1, k);
            }
            let (d, t) = pack_entries(p, path, es, builds, k - 1)->Ok_0;
            let d2 = pack_entries(p, path, es, builds, k)->Ok_0.0;
            let e = es[k - 1];
            if p.included(e) && k - 1 != p.config_pos(es) {
                lemma_insert_get(d, e.name@, pack_entry(p, path, e, builds)->Ok_0.0, META_SECTION_NAME@);
            }
        }
    }
}

/// Without dotfiles, the walk over the first `k` entries records no name
/// that starts with a dot in the metadata tree, and its document holds such
/// a name only where the configuration file has it as a key.
proof fn lemma_dotfiles_left_out(
    p: Packager,
    path: Seq<Seq<char>>,
    es: Seq<Entry>,
    builds: Seq<BuildOutcome>,
    k: int,
)
    requires
        !p.preserve_dotfiles,
        0 <= k <= es.len(),
    ensures
        pack_entries(p, path, es, builds, k) matches Ok((d, t)) ==> (forall|n: Seq<char>|
            is_dotfile(n) ==> !has_key(t, n) && (has_key(d, n) ==> has_key(
                config_seed(p, path, es)->Ok_0,
                n,
            ))),
    decreases k,
{
    if k > 0 {
        lemma_dotfiles_left_out(p, path, es, builds, k - 1);
        if pack_entries(p, path, es, builds, k) is Ok {
            if pack_entries(p, path, es, builds, k - 1) is Err {
                lemma_failure_stays(p, path, es, builds, k - 1, k);
            }
            let (d, t) = pack_entries(p, path, es, builds, k - 1)->Ok_0;
            let (d2, t2) = pack_entries(p, path, es, builds, k)->Ok_0;
            let e = es[k - 1];
            if p.included(e) && k - 1 != p.config_pos(es) {
                assert forall|n: Seq<char>| is_dotfile(n) implies !has_key(t2, n) && (has_key(d2, n) ==> has_key(
                    config_seed(p, path, es)->Ok_0,
                    n,
                )) by {
                    lemma_insert_get(d, e.name@, pack_entry(p, path, e, builds)->Ok_0.0, n);
                    lemma_insert_get(t, e.name@, pack_entry(p, path, e, builds)->Ok_0.1, n);
                }
            }
        }
    } else {
        if pack_entries(p, path, es, builds, k) is Ok {
            assert forall|n: Seq<char>| is_dotfile(n) implies !has_key(Seq::<(Seq<char>, JVal)>::empty(), n) by {}
        }
    }
}

/// Without dotfiles, the packed document of a directory holds a name that
/// starts with a dot only where its configuration file has it as a key, and
/// its metadata tree records no such name.
pub proof fn lemma_dotfiles_not_packed(p: Packager, path: Seq<Seq<char>>, es: Seq<Entry>, builds: Seq<BuildOutcome>)
    requires
        !p.preserve_dotfiles,
    ensures
        pack_dir(p, path, es, builds) matches Ok(d) ==> forall|n: Seq<char>|
            is_dotfile(n) && #[trigger] has_key(d, n) ==> has_key(config_seed(p, path, es)->Ok_0, n),
        pack_entries(p, path, es, builds, es.len() as int) matches Ok((doc, tree)) ==> forall|n: Seq<char>|
            is_dotfile(n) ==> !#[trigger] has_key(tree, n),
{
    let n = es.len() as int;
    lemma_dotfiles_left_out(p, path, es, builds, n);
    if pack_dir(p, path, es, builds) is Ok {
        let (doc, tree) = pack_entries(p, path, es, builds, n)->Ok_0;
        let meta = meta_section(config_name(p, es), tree);
        reveal_strlit("__META__");
        assert(!is_dotfile(META_SECTION_NAME@));
        assert forall|k: Seq<char>|
            is_dotfile(k) && #[trigger] has_key(pack_dir(p, path, es, builds)->Ok_0, k) implies has_key(
                config_seed(p, path, es)->Ok_0,
                k,
            ) by {
            lemma_insert_get(doc, META_SECTION_NAME@, JVal::Obj(meta), k);
        }
    }
}

/// With dotfiles kept, a regular file whose name starts with a dot, and
/// that is not the configuration file, is packed like any other file.
pub proof fn lemma_dotfile_kept(
    p: Packager,
    path: Seq<Seq<char>>,
    es: Seq<Entry>,
    builds: Seq<BuildOutcome>,
    k: int,
)
    requires
        p.preserve_dotfiles,
        names_unique(es),
        0 <= k < es.len(),
        k != p.config_pos(es),
        es[k].node is File,
        es[k].node->File_0.bytes@.len() <= MAX_EMBEDDED_LEN,
    ensures
        pack_entries(p, path, es, builds, es.len() as int) matches Ok((d, t)) ==> obj_get(
            d,
            es[k].name@,
        ) == Some(JVal::Str(b64_encoded(es[k].node->File_0.bytes@))) && obj_get(t, es[k].name@)
            == Some(tag(META_FILE_ID)),
{
    if pack_entries(p, path, es, builds, es.len() as int) is Ok {
        lemma_entry_kept(p, path, es, builds, k, es.len() as int);
        if pack_entries(p, path, es, builds, k) is Err {
            lemma_failure_stays(p, path, es, builds, k, k + 1);
        }
        let (d, t) = pack_entries(p, path, es, builds, k)->Ok_0;
        let v = JVal::Str(b64_encoded(es[k].node->File_0.bytes@));
        assert(pack_entry(p, path, es[k], builds) == Ok::<(JVal, JVal), PackFailure>((v, tag(META_FILE_ID))));
        assert(pack_entries(p, path, es, builds, k + 1) == Ok::<(Fields, Fields), PackFailure>(
            (obj_insert(d, es[k].name@, v), obj_insert(t, es[k].name@, tag(META_FILE_ID))),
        ));
        lemma_insert_get(d, es[k].name@, v, es[k].name@);
        lemma_insert_get(t, es[k].name@, tag(META_FILE_ID), es[k].name@);
    }
}

/// A build unit is packed as its artifact: the document holds the base64
/// text of the artifact's bytes under the unit's name, and the metadata tree
/// tags it as a build artifact.
pub proof fn lemma_build_substitution(
    p: Packager,
    path: Seq<Seq<char>>,
    es: Seq<Entry>,
    builds: Seq<BuildOutcome>,
    k: int,
    bytes: Seq<u8>,
)
    requires
        names_unique(es),
        0 <= k < es.len(),
        p.included(es[k]),
        k != p.config_pos(es),
        es[k].node is Dir,
        is_build_unit(es[k].node->Dir_0@),
        lookup_build(builds, path.push(es[k].name@)) == Some(Ok::<Seq<u8>, BuildError>(bytes)),
        bytes.len() <= MAX_EMBEDDED_LEN,
    ensures
        pack_entries(p, path, es, builds, es.len() as int) matches Ok((d, t)) ==> obj_get(
            d,
            es[k].name@,
        ) == Some(JVal::Str(b64_encoded(bytes))) && obj_get(t, es[k].name@) == Some(tag(META_BIN_ID)),
{
    if pack_entries(p, path, es, builds, es.len() as int) is Ok {
        lemma_entry_kept(p, path, es, builds, k, es.len() as int);
        if pack_entries(p, path, es, builds, k) is Err {
            lemma_failure_stays(p, path, es, builds, k, k + 1);
        }
        let (d, t) = pack_entries(p, path, es, builds, k)->Ok_0;
        let v = JVal::Str(b64_encoded(bytes));
        assert(pack_entry(p, path, es[k], builds) == Ok::<(JVal, JVal), PackFailure>((v, tag(META_BIN_ID))));
        assert(pack_entries(p, path, es, builds, k + 1) == Ok::<(Fields, Fields), PackFailure>(
            (obj_insert(d, es[k].name@, v), obj_insert(t, es[k].name@, tag(META_BIN_ID))),
        ));
        lemma_insert_get(d, es[k].name@, v, es[k].name@);
        lemma_insert_get(t, es[k].name@, tag(META_BIN_ID), es[k].name@);
    }
}

/// An entry tagged as a build artifact is unpacked as one file, named after
/// the entry with the artifact extension, holding the bytes that its base64
/// text decodes to.
pub proof fn lemma_artifact_unpacked(doc: Fields, dir: Seq<Seq<char>>, j: int, bytes: Seq<u8>)
    requires
        obj_get(doc, META_SECTION_NAME@) matches Some(JVal::Obj(_)),
        0 <= j < tree_of(obj_get(doc, META_SECTION_NAME@)->0->Obj_0).len(),
        tree_of(obj_get(doc, META_SECTION_NAME@)->0->Obj_0)[j].1 == JVal::Str(META_BIN_ID@),
        tree_of(obj_get(doc, META_SECTION_NAME@)->0->Obj_0)[j].0 != META_SECTION_NAME@,
        obj_get(doc, tree_of(obj_get(doc, META_SECTION_NAME@)->0->Obj_0)[j].0) == Some(
            JVal::Str(b64_encoded(bytes)),
        ),
        b64_decoded(b64_encoded(bytes)) == Some(bytes),
        encode_utf8(b64_encoded(bytes)).len() <= MAX_BASE64_TEXT_LEN,
    ensures
        ({
            let t = tree_of(obj_get(doc, META_SECTION_NAME@)->0->Obj_0);
            unpack_entries(doc, dir, t, j).1 is None ==> unpack_entries(doc, dir, t, j + 1) == (
                unpack_entries(doc, dir, t, j).0.push(
                    Op::WriteFile(dir.push(path_with_extension(t[j].0, WASM_FILE_EXTENSION@)), bytes),
                ),
                None::<UnpackFailure>,
            )
        }),
{
    let t = tree_of(obj_get(doc, META_SECTION_NAME@)->0->Obj_0);
    lemma_key_pos_bounds(doc, t[j].0);
}

/// Whether a directory, and every directory under it, holds only regular
/// files and plain directories that a packing keeps whole: names distinct
/// and not the metadata key, no build units, every entry included, files
/// small enough to embed, and a
/// configuration file, where there is one, that is a non-empty object none
/// of whose keys is the metadata key or the name of another entry.
pub open spec fn plain_tree(p: Packager, es: Seq<Entry>) -> bool
    decreases es,
{
    &&& names_unique(es)
    &&& forall|i: int|
        0 <= i < es.len() ==> p.included(#[trigger] es[i]) && es[i].name@ != META_SECTION_NAME@
    &&& forall|i: int|
        0 <= i < es.len() ==> match #[trigger] es[i].node {
            Node::Dir(sub) => !is_build_unit(sub@) && plain_tree(p, sub@),
            Node::File(f) => f.bytes@.len() <= MAX_EMBEDDED_LEN,
        }
    &&& p.config_pos(es) < es.len() ==> match es[p.config_pos(es)].node {
        Node::File(f) => match f.json {
            Some(v) => match v@ {
                JVal::Obj(fs) => fs.len() > 0 && !has_key(fs, META_SECTION_NAME@) && forall|i: int|
                    0 <= i < es.len() && i != p.config_pos(es) ==> !has_key(fs, #[trigger] es[i].name@),
                _ => false,
            },
            None => false,
        },
        Node::Dir(_) => false,
    }
}

/// The writes that rebuild the first `k` entries of the directory at `dir`
/// (all but its configuration file): each file with its bytes, each
/// directory created and then filled.
pub open spec fn expected_entries(p: Packager, dir: Seq<Seq<char>>, es: Seq<Entry>, k: int) -> Seq<Op>
    decreases es, k,
{
    if k <= 0 || k > es.len() {
        Seq::empty()
    } else {
        let prev = expected_entries(p, dir, es, k - 1);
        let e = es[k - 1];
        if k - 1 == p.config_pos(es) {
            prev
        } else {
            match e.node {
                Node::File(f) => prev.push(Op::WriteFile(dir.push(e.name@), f.bytes@)),
                Node::Dir(sub) => prev.push(Op::CreateDir(dir.push(e.name@))) + expected_dir(
                    p,
                    dir.push(e.name@),
                    sub@,
                ),
            }
        }
    }
}

/// The writes that rebuild the directory at `dir` with entries `es`: its
/// entries, then its configuration file with the fields it had.
pub open spec fn expected_dir(p: Packager, dir: Seq<Seq<char>>, es: Seq<Entry>) -> Seq<Op>
    decreases es, es.len() + 1,
{
    let ops = expected_entries(p, dir, es, es.len() as int);
    let c = p.config_pos(es);
    if c < es.len() {
        match es[c].node {
            Node::File(f) => match f.json {
                Some(v) => match v@ {
                    JVal::Obj(fs) => ops.push(Op::WriteConfig(dir.push(es[c].name@), fs)),
                    _ => ops,
                },
                None => ops,
            },
            Node::Dir(_) => ops,
        }
    } else {
        ops
    }
}

/// The fields of a plain directory's configuration file.
proof fn lemma_plain_seed(p: Packager, path: Seq<Seq<char>>, es: Seq<Entry>)
    requires
        plain_tree(p, es),
    ensures
        config_seed(p, path, es) is Ok,
        !has_key(config_seed(p, path, es)->Ok_0, META_SECTION_NAME@),
        forall|i: int|
            0 <= i < es.len() && i != p.config_pos(es) ==> !has_key(
                config_seed(p, path, es)->Ok_0,
                #[trigger] es[i].name@,
            ),
{
    let c = p.config_pos(es);
    if c >= es.len() {
        assert(!has_key(Seq::<(Seq<char>, JVal)>::empty(), META_SECTION_NAME@));
        assert forall|i: int| 0 <= i < es.len() && i != c implies !has_key(
            config_seed(p, path, es)->Ok_0,
            #[trigger] es[i].name@,
        ) by {}
    }
}

/// The walk over a plain directory appends: its document is the
/// configuration's fields followed by fields that the tree names, the tree
/// names only entries already walked, and neither holds the metadata key.
proof fn lemma_walk_shape(p: Packager, path: Seq<Seq<char>>, es: Seq<Entry>, builds: Seq<BuildOutcome>, k: int)
    requires
        plain_tree(p, es),
        0 <= k <= es.len(),
        pack_entries(p, path, es, builds, k) is Ok,
    ensures
        ({
            let (doc, tree) = pack_entries(p, path, es, builds, k)->Ok_0;
            let seed = config_seed(p, path, es)->Ok_0;
            &&& seed.len() <= doc.len()
            &&& doc.subrange(0, seed.len() as int) == seed
            &&& forall|i: int| seed.len() <= i < doc.len() ==> has_key(tree, #[trigger] doc[i].0)
            &&& forall|n: Seq<char>|
                #[trigger] has_key(tree, n) ==> exists|j: int|
                    0 <= j < k && j != p.config_pos(es) && #[trigger] es[j].name@ == n
            &&& !has_key(doc, META_SECTION_NAME@)
            &&& !has_key(tree, META_SECTION_NAME@)
        }),
    decreases k,
{
    lemma_plain_seed(p, path, es);
    let seed = config_seed(p, path, es)->Ok_0;
    if k == 0 {
        assert(seed.subrange(0, seed.len() as int) =~= seed);
        assert forall|n: Seq<char>| #[trigger] has_key(Seq::<(Seq<char>, JVal)>::empty(), n) implies exists|j: int|
            0 <= j < k && j != p.config_pos(es) && #[trigger] es[j].name@ == n by {}
    } else {
        if pack_entries(p, path, es, builds, k - 1) is Err {
            lemma_failure_stays(p, path, es, builds, k - 1, k);
        }
        lemma_walk_shape(p, path, es, builds, k - 1);
        let (doc, tree) = pack_entries(p, path, es, builds, k - 1)->Ok_0;
        let e = es[k - 1];
        if k - 1 != p.config_pos(es) {
            assert(p.included(es[k - 1]));
            let (v, tg) = pack_entry(p, path, e, builds)->Ok_0;
            if has_key(doc, e.name@) {
                let w = choose|w: int| 0 <= w < doc.len() && doc[w].0 == e.name@;
                if w < seed.len() {
                    assert(seed[w] == doc.subrange(0, seed.len() as int)[w]);
                    assert(has_key(seed, e.name@));
                } else {
                    assert(has_key(tree, doc[w].0));
                    let j = choose|j: int| 0 <= j < k - 1 && j != p.config_pos(es) && #[trigger] es[j].name@ == e.name@;
                    assert(es[j].name@ != es[k - 1].name@);
                }
            }
            if has_key(tree, e.name@) {
                let j = choose|j: int| 0 <= j < k - 1 && j != p.config_pos(es) && #[trigger] es[j].name@ == e.name@;
                assert(es[j].name@ != es[k - 1].name@);
            }
            lemma_fresh_insert(doc, e.name@, v);
            lemma_fresh_insert(tree, e.name@, tg);
            let doc2 = doc.push((e.name@, v));
            let tree2 = tree.push((e.name@, tg));
            assert(doc2.subrange(0, seed.len() as int) =~= doc.subrange(0, seed.len() as int));
            assert forall|i: int| seed.len() <= i < doc2.len() implies has_key(tree2, #[trigger] doc2[i].0) by {
                if i < doc.len() {
                    assert(has_key(tree, doc[i].0));
                    let w = choose|w: int| 0 <= w < tree.len() && tree[w].0 == doc[i].0;
                    assert(tree2[w] == tree[w]);
                } else {
                    assert(tree2[tree.len() as int].0 == e.name@);
                }
            }
            assert forall|n: Seq<char>| #[trigger] has_key(tree2, n) implies exists|j: int|
                0 <= j < k && j != p.config_pos(es) && #[trigger] es[j].name@ == n by {
                let w = choose|w: int| 0 <= w < tree2.len() && tree2[w].0 == n;
                if w < tree.len() {
                    assert(tree[w] == tree2[w]);
                    assert(has_key(tree, n));
                } else {
                    assert(es[k - 1].name@ == n);
                }
            }
            assert(!has_key(doc2, META_SECTION_NAME@)) by {
                if has_key(doc2, META_SECTION_NAME@) {
                    let w = choose|w: int| 0 <= w < doc2.len() && doc2[w].0 == META_SECTION_NAME@;
                    if w < doc.len() {
                        assert(doc[w] == doc2[w]);
                    }
                }
            }
            assert(!has_key(tree2, META_SECTION_NAME@)) by {
                if has_key(tree2, META_SECTION_NAME@) {
                    let w = choose|w: int| 0 <= w < tree2.len() && tree2[w].0 == META_SECTION_NAME@;
                    if w < tree.len() {
                        assert(tree[w] == tree2[w]);
                    }
                }
            }
        } else {
            assert forall|n: Seq<char>| #[trigger] has_key(tree, n) implies exists|j: int|
                0 <= j < k && j != p.config_pos(es) && #[trigger] es[j].name@ == n by {
                let j = choose|j: int| 0 <= j < k - 1 && j != p.config_pos(es) && #[trigger] es[j].name@ == n;
            }
        }
    }
}

/// Unpacking the tree entries that the walk over the first `k` entries of
/// a plain directory recorded gives the writes that rebuild those entries.
proof fn lemma_round_trip_entries(
    p: Packager,
    path: Seq<Seq<char>>,
    es: Seq<Entry>,
    builds: Seq<BuildOutcome>,
    k: int,
    d: Fields,
    t: Fields,
)
    requires
        !p.strip_meta,
        plain_tree(p, es),
        codec_round_trips(),
        0 <= k <= es.len(),
        pack_entries(p, path, es, builds, es.len() as int) is Ok,
        forall|j: int|
            0 <= j < es.len() && j != p.config_pos(es) ==> obj_get(d, #[trigger] es[j].name@) == obj_get(
                pack_entries(p, path, es, builds, es.len() as int)->Ok_0.0,
                es[j].name@,
            ),
        pack_entries(p, path, es, builds, k) is Ok,
        pack_entries(p, path, es, builds, k)->Ok_0.1.len() <= t.len(),
        t.take(pack_entries(p, path, es, builds, k)->Ok_0.1.len() as int) == pack_entries(
            p,
            path,
            es,
            builds,
            k,
        )->Ok_0.1,
    ensures
        unpack_entries(d, path, t, pack_entries(p, path, es, builds, k)->Ok_0.1.len() as int) == (
            expected_entries(p, path, es, k),
            None::<UnpackFailure>,
        ),
    decreases es, k,
{
    if k == 0 {
        return;
    }
    if pack_entries(p, path, es, builds, k - 1) is Err {
        lemma_failure_stays(p, path, es, builds, k - 1, k);
    }
    let (doc, tree) = pack_entries(p, path, es, builds, k - 1)->Ok_0;
    let m = tree.len() as int;
    let e = es[k - 1];
    if k - 1 == p.config_pos(es) {
        lemma_round_trip_entries(p, path, es, builds, k - 1, d, t);
        return;
    }
    assert(p.included(es[k - 1]));
    lemma_walk_shape(p, path, es, builds, k - 1);
    let (v, tg) = pack_entry(p, path, e, builds)->Ok_0;
    if has_key(tree, e.name@) {
        let j = choose|j: int| 0 <= j < k - 1 && j != p.config_pos(es) && #[trigger] es[j].name@ == e.name@;
        assert(es[j].name@ != es[k - 1].name@);
    }
    lemma_fresh_insert(tree, e.name@, tg);
    let tree2 = tree.push((e.name@, tg));
    assert(t.take(m + 1) == tree2);
    assert(t.take(m) =~= tree2.take(m));
    assert(tree2.take(m) =~= tree);
    lemma_round_trip_entries(p, path, es, builds, k - 1, d, t);
    assert(t[m] == tree2[m]);
    // where the entry's value sits in the final document
    lemma_entry_kept(p, path, es, builds, k - 1, es.len() as int);
    lemma_insert_get(doc, e.name@, v, e.name@);
    assert(obj_get(d, es[k - 1].name@) == Some(v));
    lemma_key_pos_bounds(d, e.name@);
    reveal_strlit("dir");
    reveal_strlit("file");
    reveal_strlit("bin");
    assert(META_DIR_ID@.len() == 3 && META_FILE_ID@.len() == 4 && META_DIR_ID@[0] != META_BIN_ID@[0]);
    assert(META_DIR_ID@ != META_FILE_ID@ && META_DIR_ID@ != META_BIN_ID@ && META_FILE_ID@ != META_BIN_ID@);
    match e.node {
        Node::File(f) => {
            assert(f.bytes@.len() <= MAX_EMBEDDED_LEN);
            assert(b64_decoded(b64_encoded(f.bytes@)) == Some(f.bytes@));
        },
        Node::Dir(sub) => {
            assert(plain_tree(p, sub@));
            lemma_round_trip(p, path.push(e.name@), sub@, builds);
        },
    }
}

/// Packing a plain directory tree, with its metadata, and unpacking the
/// bundle rebuilds the tree: every directory created, every file written
/// with the bytes it had, every configuration file written with the fields
/// it had, and nothing else, where the byte codec decodes what it encodes.
pub proof fn lemma_round_trip(p: Packager, path: Seq<Seq<char>>, es: Seq<Entry>, builds: Seq<BuildOutcome>)
    requires
        !p.strip_meta,
        plain_tree(p, es),
        codec_round_trips(),
    ensures
        pack_dir(p, path, es, builds) is Ok,
        unpack_dir(pack_dir(p, path, es, builds)->Ok_0, path) == (
            expected_dir(p, path, es),
            None::<UnpackFailure>,
        ),
    decreases es, es.len() + 1,
{
    lemma_pack_ok(p, path, es, builds, es.len() as int);
    let n = es.len() as int;
    lemma_plain_seed(p, path, es);
    lemma_walk_shape(p, path, es, builds, n);
    let seed = config_seed(p, path, es)->Ok_0;
    let (doc, tree) = pack_entries(p, path, es, builds, n)->Ok_0;
    let cfg = config_name(p, es);
    let meta = meta_section(cfg, tree);
    let d = pack_dir(p, path, es, builds)->Ok_0;
    assert(d == with_meta(p, doc, cfg, tree));
    assert forall|j: int| 0 <= j < es.len() && j != p.config_pos(es) implies obj_get(d, #[trigger] es[j].name@)
        == obj_get(doc, es[j].name@) by {
        lemma_insert_get(doc, META_SECTION_NAME@, JVal::Obj(meta), es[j].name@);
    }
    assert(tree.take(tree.len() as int) =~= tree);
    lemma_round_trip_entries(p, path, es, builds, n, d, tree);
    reveal_strlit("tree");
    reveal_strlit("config_file");
    reveal_strlit("__META__");
    assert(META_TREE_SECTION_NAME@.len() == 4 && META_CONFIG_SECTION_NAME@.len() == 11);
    assert(META_TREE_SECTION_NAME@ != META_CONFIG_SECTION_NAME@);
    let base: Fields = match cfg {
        Some(c) => seq![(META_CONFIG_SECTION_NAME@, JVal::Str(c))],
        None => Seq::empty(),
    };
    lemma_key_pos_bounds(base, META_TREE_SECTION_NAME@);
    if meta.len() == 0 {
        lemma_get_has(doc, META_SECTION_NAME@);
        assert(tree.len() == 0);
    } else {
        lemma_fresh_insert(doc, META_SECTION_NAME@, JVal::Obj(meta));
        lemma_insert_get(doc, META_SECTION_NAME@, JVal::Obj(meta), META_SECTION_NAME@);
        lemma_key_pos_bounds(base, META_CONFIG_SECTION_NAME@);
        if cfg is Some {
            lemma_key_pos(base, META_CONFIG_SECTION_NAME@, 0);
        }
        lemma_insert_get(base, META_TREE_SECTION_NAME@, JVal::Obj(tree), META_CONFIG_SECTION_NAME@);
        assert(tree_of(meta) == tree);
        if cfg is Some {
            // what is left for the configuration file is its own fields
            let rest = doc.subrange(seed.len() as int, doc.len() as int);
            assert(doc =~= seed + rest);
            let last: Fields = seq![(META_SECTION_NAME@, JVal::Obj(meta))];
            assert(d =~= seed + rest + last);
            lemma_leftover_concat(seed + rest, last, tree);
            lemma_leftover_concat(seed, rest, tree);
            assert forall|i: int| 0 <= i < seed.len() implies #[trigger] seed[i].0 != META_SECTION_NAME@
                && !has_key(tree, seed[i].0) by {
                assert(has_key(seed, seed[i].0));
                if has_key(tree, seed[i].0) {
                    let j = choose|j: int| 0 <= j < n && j != p.config_pos(es) && #[trigger] es[j].name@ == seed[i].0;
                }
            }
            lemma_leftover_keeps(seed, tree);
            assert forall|i: int| 0 <= i < rest.len() implies #[trigger] rest[i].0 == META_SECTION_NAME@ || has_key(tree, rest[i].0) by {
                assert(rest[i] == doc[seed.len() + i]);
            }
            lemma_leftover_drops(rest, tree);
            lemma_leftover_drops(last, tree);
            assert(leftover(d, tree) =~= seed);
        }
    }
}

/// Packing a plain directory succeeds.
proof fn lemma_pack_ok(p: Packager, path: Seq<Seq<char>>, es: Seq<Entry>, builds: Seq<BuildOutcome>, k: int)
    requires
        plain_tree(p, es),
        0 <= k <= es.len(),
    ensures
        pack_entries(p, path, es, builds, k) is Ok,
    decreases es, k,
{
    lemma_plain_seed(p, path, es);
    if k > 0 {
        lemma_pack_ok(p, path, es, builds, k - 1);
        let e = es[k - 1];
        assert(p.included(es[k - 1]));
        match es[k - 1].node {
            Node::Dir(sub) => {
                assert(!is_build_unit(sub@) && plain_tree(p, sub@));
                lemma_pack_ok(p, path.push(e.name@), sub@, builds, sub@.len() as int);
                assert(pack_dir(p, path.push(e.name@), sub@, builds) is Ok);
                assert(pack_entry(p, path, e, builds) is Ok);
            },
            Node::File(_) => {
                assert(pack_entry(p, path, e, builds) is Ok);
            },
        }
    }
}

} // verus!
