use vstd::prelude::*;
use vstd::utf8::encode_utf8;

use crate::codec::{b64_decoded, decode_text, path_with_extension, with_extension};
use crate::names::{
    META_BIN_ID, META_CONFIG_SECTION_NAME, META_DIR_ID, META_FILE_ID, META_SECTION_NAME,
    META_TREE_SECTION_NAME, MAX_BASE64_TEXT_LEN, WASM_FILE_EXTENSION,
};
use crate::value::{
    clone_path, fields_view, find_field, has_key, key_pos, obj_get, strings_view, Field, Fields, JVal,
    Value,
};

verus! {

broadcast use crate::value::lemma_value_view;

/// One write that unpacking makes, at a path relative to the target directory.
#[derive(Debug)]
pub enum WriteOp {
    /// Create a directory, which must not exist yet.
    CreateDir { path: Vec<String> },
    /// Write a file with these bytes.
    WriteFile { path: Vec<String>, bytes: Vec<u8> },
    /// Write a configuration file: these fields as a pretty-printed JSON object.
    WriteConfig { path: Vec<String>, fields: Vec<Field> },
}

/// The model of a `WriteOp`.
pub enum Op {
    CreateDir(Seq<Seq<char>>),
    WriteFile(Seq<Seq<char>>, Seq<u8>),
    WriteConfig(Seq<Seq<char>>, Fields),
}

impl WriteOp {
    pub open spec fn view(&self) -> Op {
        match self {
            WriteOp::CreateDir { path } => Op::CreateDir(strings_view(path@)),
            WriteOp::WriteFile { path, bytes } => Op::WriteFile(strings_view(path@), bytes@),
            WriteOp::WriteConfig { path, fields } => Op::WriteConfig(strings_view(path@), fields_view(fields@)),
        }
    }
}

pub open spec fn ops_view(ops: Seq<WriteOp>) -> Seq<Op> {
    Seq::new(ops.len(), |i: int| ops[i]@)
}

/// How a document contradicts its metadata section.
#[derive(PartialEq, Eq, Structural, Clone, Copy, Debug)]
pub enum Corruption {
    /// The tree names an entry that the document lacks.
    MissingEntry,
    /// A file or artifact entry is not a string.
    NotAString,
    /// A directory entry is not an object.
    NotAnObject,
    /// The tree tags an entry with something other than a known kind.
    UnknownKind,
    /// The configuration file's name is not a string.
    ConfigNameNotAString,
}

/// Why a document could not be unpacked.
#[derive(Debug)]
pub enum UnpackError {
    /// The document contradicts its metadata at `path`.
    CorruptBundle { path: Vec<String>, reason: Corruption },
    /// The entry at `path` is not valid base64.
    Decode { path: Vec<String> },
}

/// The model of an `UnpackError`.
pub enum UnpackFailure {
    CorruptBundle(Seq<Seq<char>>, Corruption),
    Decode(Seq<Seq<char>>),
}

impl UnpackError {
    pub open spec fn view(&self) -> UnpackFailure {
        match self {
            UnpackError::CorruptBundle { path, reason } => UnpackFailure::CorruptBundle(strings_view(path@), *reason),
            UnpackError::Decode { path } => UnpackFailure::Decode(strings_view(path@)),
        }
    }
}

/// The writes that unpacking makes, and the error that stopped it, if any.
pub type Outcome = (Seq<Op>, Option<UnpackFailure>);

/// The fields of a document that are left for its configuration file: all
/// but the metadata section and the entries that the tree names.
pub open spec fn leftover(doc: Fields, tree: Fields) -> Fields
    decreases doc.len(),
{
    if doc.len() == 0 {
        Seq::empty()
    } else {
        let p = leftover(doc.drop_last(), tree);
        let f = doc.last();
        if f.0 != META_SECTION_NAME@ && !has_key(tree, f.0) {
            p.push(f)
        } else {
            p
        }
    }
}

/// The tree of a metadata section, where it has one.
pub open spec fn tree_of(meta: Fields) -> Fields {
    match obj_get(meta, META_TREE_SECTION_NAME@) {
        Some(JVal::Obj(t)) => t,
        _ => Seq::empty(),
    }
}

/// The name under which an entry of kind `kind` is written.
pub open spec fn file_name(name: Seq<char>, kind: Seq<char>) -> Seq<char> {
    if kind == META_BIN_ID@ {
        path_with_extension(name, WASM_FILE_EXTENSION@)
    } else {
        name
    }
}

/// Unpacking of the document `doc` into the directory `dir`.
pub open spec fn unpack_dir(doc: Fields, dir: Seq<Seq<char>>) -> Outcome
    decreases doc, 1int, 0int,
{
    match obj_get(doc, META_SECTION_NAME@) {
        Some(JVal::Obj(meta)) => {
            let t = tree_of(meta);
            let (ops, err) = unpack_entries(doc, dir, t, t.len() as int);
            if err is Some {
                (ops, err)
            } else {
                match obj_get(meta, META_CONFIG_SECTION_NAME@) {
                    Some(JVal::Str(n)) => {
                        let rest = leftover(doc, t);
                        if rest.len() > 0 {
                            (ops.push(Op::WriteConfig(dir.push(n), rest)), None)
                        } else {
                            (ops, None)
                        }
                    },
                    Some(_) => (ops, Some(UnpackFailure::CorruptBundle(dir, Corruption::ConfigNameNotAString))),
                    None => (ops, None),
                }
            }
        },
        _ => (Seq::empty(), None),
    }
}

/// Unpacking of the first `k` entries of the tree `t` of `doc` into `dir`.
pub open spec fn unpack_entries(doc: Fields, dir: Seq<Seq<char>>, t: Fields, k: int) -> Outcome
    decreases doc, 0int, k,
{
    if k <= 0 || k > t.len() {
        (Seq::empty(), None)
    } else {
        let (ops, err) = unpack_entries(doc, dir, t, k - 1);
        if err is Some {
            (ops, err)
        } else {
            let name = t[k - 1].0;
            let kind = t[k - 1].1;
            let path = dir.push(name);
            let i = key_pos(doc, name);
            if name == META_SECTION_NAME@ || !(0 <= i < doc.len()) {
                (ops, Some(UnpackFailure::CorruptBundle(path, Corruption::MissingEntry)))
            } else {
                match kind {
                    JVal::Str(kd) => if kd == META_FILE_ID@ || kd == META_BIN_ID@ {
                        match doc[i].1 {
                            JVal::Str(text) => if encode_utf8(text).len() > MAX_BASE64_TEXT_LEN {
                                (ops, Some(UnpackFailure::Decode(path)))
                            } else {
                                match b64_decoded(text) {
                                    Some(bytes) => (ops.push(Op::WriteFile(dir.push(file_name(name, kd)), bytes)), None),
                                    None => (ops, Some(UnpackFailure::Decode(path))),
                                }
                            },
                            _ => (ops, Some(UnpackFailure::CorruptBundle(path, Corruption::NotAString))),
                        }
                    } else if kd == META_DIR_ID@ {
                        match doc[i].1 {
                            JVal::Obj(sub) => {
                                let (sub_ops, sub_err) = unpack_dir(sub, path);
                                (ops.push(Op::CreateDir(path)) + sub_ops, sub_err)
                            },
                            _ => (ops, Some(UnpackFailure::CorruptBundle(path, Corruption::NotAnObject))),
                        }
                    } else {
                        (ops, Some(UnpackFailure::CorruptBundle(path, Corruption::UnknownKind)))
                    },
                    _ => (ops, Some(UnpackFailure::CorruptBundle(path, Corruption::UnknownKind))),
                }
            }
        }
    }
}

/// Leftover fields of two lists in a row are those of each, in a row.
pub proof fn lemma_leftover_concat(a: Fields, b: Fields, t: Fields)
    ensures
        leftover(a + b, t) == leftover(a, t) + leftover(b, t),
    decreases b.len(),
{
    if b.len() == 0 {
        assert(a + b =~= a);
        assert(leftover(a, t) + leftover(b, t) =~= leftover(a, t));
    } else {
        assert((a + b).drop_last() =~= a + b.drop_last());
        assert((a + b).last() == b.last());
        lemma_leftover_concat(a, b.drop_last(), t);
        let l = leftover(a, t);
        let r = leftover(b.drop_last(), t);
        assert(l + r.push(b.last()) =~= (l + r).push(b.last()));
    }
}

/// Fields that are neither the metadata section nor in the tree are all left over.
pub proof fn lemma_leftover_keeps(a: Fields, t: Fields)
    requires
        forall|i: int| 0 <= i < a.len() ==> #[trigger] a[i].0 != META_SECTION_NAME@ && !has_key(t, a[i].0),
    ensures
        leftover(a, t) == a,
    decreases a.len(),
{
    if a.len() > 0 {
        lemma_leftover_keeps(a.drop_last(), t);
        assert(a.drop_last().push(a.last()) =~= a);
    }
}

/// Fields that are the metadata section or in the tree are none of them left over.
pub proof fn lemma_leftover_drops(a: Fields, t: Fields)
    requires
        forall|i: int| 0 <= i < a.len() ==> #[trigger] a[i].0 == META_SECTION_NAME@ || has_key(t, a[i].0),
    ensures
        leftover(a, t) == Seq::<(Seq<char>, JVal)>::empty(),
    decreases a.len(),
{
    if a.len() > 0 {
        lemma_leftover_drops(a.drop_last(), t);
    }
}

/// Unpacking the first `m` entries of a tree reads only those entries.
pub proof fn lemma_unpack_prefix(doc: Fields, dir: Seq<Seq<char>>, t1: Fields, t2: Fields, m: int)
    requires
        0 <= m <= t1.len(),
        m <= t2.len(),
        t1.take(m) == t2.take(m),
    ensures
        unpack_entries(doc, dir, t1, m) == unpack_entries(doc, dir, t2, m),
    decreases m,
{
    if m > 0 {
        assert(t1.take(m - 1) =~= t1.take(m).take(m - 1));
        assert(t2.take(m - 1) =~= t2.take(m).take(m - 1));
        assert(t1[m - 1] == t1.take(m)[m - 1]);
        assert(t2[m - 1] == t2.take(m)[m - 1]);
        lemma_unpack_prefix(doc, dir, t1, t2, m - 1);
    }
}

/// Once unpacking a tree failed, it stays failed.
pub proof fn lemma_error_stays(doc: Fields, dir: Seq<Seq<char>>, t: Fields, k: int, n: int)
    requires
        0 <= k <= n <= t.len(),
        unpack_entries(doc, dir, t, k).1 is Some,
    ensures
        unpack_entries(doc, dir, t, n) == unpack_entries(doc, dir, t, k),
    decreases n - k,
{
    if n > k {
        lemma_error_stays(doc, dir, t, k, n - 1);
    }
}

/// The fields of `doc` that are left for its configuration file.
fn leftover_fields(doc: &Vec<Field>, tree: &Vec<Field>) -> (r: Vec<Field>)
    ensures
        fields_view(r@) == leftover(fields_view(doc@), fields_view(tree@)),
{
    let meta_key = String::from_str(META_SECTION_NAME);
    let ghost dv = fields_view(doc@);
    let ghost tv = fields_view(tree@);
    let mut out: Vec<Field> = Vec::new();
    let mut i: usize = 0;
    assert(fields_view(out@) =~= leftover(dv.take(0), tv));
    while i < doc.len()
        invariant
            i <= doc@.len(),
            meta_key@ == META_SECTION_NAME@,
            dv == fields_view(doc@),
            tv == fields_view(tree@),
            fields_view(out@) == leftover(dv.take(i as int), tv),
        decreases doc@.len() - i,
    {
        assert(dv.take(i as int + 1).drop_last() =~= dv.take(i as int));
        assert(dv.take(i as int + 1).last() == dv[i as int]);
        proof {
            crate::value::lemma_key_pos_bounds(tv, doc@[i as int].key@);
        }
        let ghost before = out@;
        if !doc[i].key.eq(&meta_key) && find_field(tree, &doc[i].key).is_none() {
            out.push(Field { key: doc[i].key.clone(), value: doc[i].value.deep_clone() });
            assert(fields_view(out@) =~= fields_view(before).push(dv[i as int]));
        }
        i = i + 1;
    }
    assert(dv.take(i as int) =~= dv);
    out
}

/// Unpacks the document with fields `doc` into the directory `dir`
/// (relative to the target of the unpacking): appends to `ops` the writes
/// that it makes, in order, and returns the error that stopped it, if any.
pub fn unpack_recurse(doc: &Vec<Field>, dir: &Vec<String>, ops: &mut Vec<WriteOp>) -> (r: Option<UnpackError>)
    ensures
        ops_view(final(ops)@) == ops_view(old(ops)@) + unpack_dir(fields_view(doc@), strings_view(dir@)).0,
        match r {
            Some(e) => unpack_dir(fields_view(doc@), strings_view(dir@)).1 == Some(e@),
            None => unpack_dir(fields_view(doc@), strings_view(dir@)).1 is None,
        },
    decreases doc@, 1int, 0int,
{
    let ghost dv = fields_view(doc@);
    let meta_key = String::from_str(META_SECTION_NAME);
    let mi = match find_field(doc, &meta_key) {
        Some(mi) => mi,
        None => {
            assert(ops_view(ops@) =~= ops_view(old(ops)@) + Seq::empty());
            return None;
        },
    };
    let meta = match &doc[mi].value {
        Value::Obj(meta) => meta,
        _ => {
            assert(ops_view(ops@) =~= ops_view(old(ops)@) + Seq::empty());
            return None;
        },
    };
    let ghost mv = fields_view(meta@);
    let tree_key = String::from_str(META_TREE_SECTION_NAME);
    let empty: Vec<Field> = Vec::new();
    let tree: &Vec<Field> = match find_field(meta, &tree_key) {
        Some(ti) => match &meta[ti].value {
            Value::Obj(t) => t,
            _ => &empty,
        },
        None => &empty,
    };
    assert(fields_view(tree@) =~= tree_of(mv));
    let err = unpack_tree(doc, dir, tree, ops);
    if err.is_some() {
        return err;
    }
    let config_key = String::from_str(META_CONFIG_SECTION_NAME);
    match find_field(meta, &config_key) {
        Some(ci) => match &meta[ci].value {
            Value::Str(n) => {
                let rest = leftover_fields(doc, tree);
                if rest.len() > 0 {
                    let mut path = clone_path(dir);
                    path.push(n.clone());
                    assert(strings_view(path@) =~= strings_view(dir@).push(n@));
                    let ghost before = ops@;
                    ops.push(WriteOp::WriteConfig { path, fields: rest });
                    assert(ops_view(ops@) =~= ops_view(before).push(ops@.last()@));
                }
                None
            },
            _ => Some(UnpackError::CorruptBundle { path: clone_path(dir), reason: Corruption::ConfigNameNotAString }),
        },
        None => None,
    }
}

/// Unpacks the entries that the tree `tree` of `doc` names, in the tree's order.
fn unpack_tree(doc: &Vec<Field>, dir: &Vec<String>, tree: &Vec<Field>, ops: &mut Vec<WriteOp>) -> (r: Option<UnpackError>)
    ensures
        ops_view(final(ops)@) == ops_view(old(ops)@) + unpack_entries(fields_view(doc@), strings_view(dir@), fields_view(tree@), tree@.len() as int).0,
        match r {
            Some(e) => unpack_entries(fields_view(doc@), strings_view(dir@), fields_view(tree@), tree@.len() as int).1 == Some(e@),
            None => unpack_entries(fields_view(doc@), strings_view(dir@), fields_view(tree@), tree@.len() as int).1 is None,
        },
    decreases doc@, 0int, tree@.len(),
{
    let ghost dv = fields_view(doc@);
    let ghost dirv = strings_view(dir@);
    let ghost tv = fields_view(tree@);
    let ghost start = ops@;
    let meta_key = String::from_str(META_SECTION_NAME);
    let file_tag = String::from_str(META_FILE_ID);
    let bin_tag = String::from_str(META_BIN_ID);
    let dir_tag = String::from_str(META_DIR_ID);
    let mut k: usize = 0;
    assert(ops_view(ops@) =~= ops_view(start) + unpack_entries(dv, dirv, tv, 0).0);
    while k < tree.len()
        invariant
            k <= tree@.len(),
            dv == fields_view(doc@),
            dirv == strings_view(dir@),
            tv == fields_view(tree@),
            meta_key@ == META_SECTION_NAME@,
            file_tag@ == META_FILE_ID@,
            bin_tag@ == META_BIN_ID@,
            dir_tag@ == META_DIR_ID@,
            start == old(ops)@,
            ops_view(ops@) == ops_view(start) + unpack_entries(dv, dirv, tv, k as int).0,
            unpack_entries(dv, dirv, tv, k as int).1 is None,
        decreases tree@.len() - k,
    {
        let ghost prev = ops@;
        let name = &tree[k].key;
        let mut path = clone_path(dir);
        path.push(name.clone());
        assert(strings_view(path@) =~= dirv.push(name@));
        let found = if name.eq(&meta_key) { None } else { find_field(doc, name) };
        let i = match found {
            Some(i) => i,
            None => {
                let e = UnpackError::CorruptBundle { path, reason: Corruption::MissingEntry };
                proof {
                    lemma_error_stays(dv, dirv, tv, k as int + 1, tv.len() as int);
                }
                assert(ops_view(ops@) =~= ops_view(start) + unpack_entries(dv, dirv, tv, tv.len() as int).0);
                return Some(e);
            },
        };
        let kind = match &tree[k].value {
            Value::Str(kd) => kd,
            _ => {
                let e = UnpackError::CorruptBundle { path, reason: Corruption::UnknownKind };
                proof {
                    lemma_error_stays(dv, dirv, tv, k as int + 1, tv.len() as int);
                }
                assert(ops_view(ops@) =~= ops_view(start) + unpack_entries(dv, dirv, tv, tv.len() as int).0);
                return Some(e);
            },
        };
        let is_bin = kind.eq(&bin_tag);
        if kind.eq(&file_tag) || is_bin {
            let text = match &doc[i].value {
                Value::Str(text) => text,
                _ => {
                    let e = UnpackError::CorruptBundle { path, reason: Corruption::NotAString };
                    proof {
                        lemma_error_stays(dv, dirv, tv, k as int + 1, tv.len() as int);
                    }
                    assert(ops_view(ops@) =~= ops_view(start) + unpack_entries(dv, dirv, tv, tv.len() as int).0);
                    return Some(e);
                },
            };
            match decode_text(text) {
                Ok(bytes) => {
                    proof {
                        reveal_strlit("wasm");
                    }
                    let fname = if is_bin { with_extension(name.as_str(), WASM_FILE_EXTENSION) } else { name.clone() };
                    let mut fpath = clone_path(dir);
                    fpath.push(fname);
                    assert(strings_view(fpath@) =~= dirv.push(file_name(name@, kind@)));
                    ops.push(WriteOp::WriteFile { path: fpath, bytes });
                    assert(ops_view(ops@) =~= ops_view(prev).push(ops@.last()@));
                },
                Err(_) => {
                    let e = UnpackError::Decode { path };
                    proof {
                        lemma_error_stays(dv, dirv, tv, k as int + 1, tv.len() as int);
                    }
                    assert(ops_view(ops@) =~= ops_view(start) + unpack_entries(dv, dirv, tv, tv.len() as int).0);
                    return Some(e);
                },
            }
        } else if kind.eq(&dir_tag) {
            let sub = match &doc[i].value {
                Value::Obj(sub) => sub,
                _ => {
                    let e = UnpackError::CorruptBundle { path, reason: Corruption::NotAnObject };
                    proof {
                        lemma_error_stays(dv, dirv, tv, k as int + 1, tv.len() as int);
                    }
                    assert(ops_view(ops@) =~= ops_view(start) + unpack_entries(dv, dirv, tv, tv.len() as int).0);
                    return Some(e);
                },
            };
            let dpath = clone_path(&path);
            ops.push(WriteOp::CreateDir { path: dpath });
            let ghost mid = ops@;
            assert(ops_view(mid) =~= ops_view(prev).push(Op::CreateDir(dirv.push(name@))));
            let sub_err = unpack_recurse(sub, &path, ops);
            assert(ops_view(ops@) =~= ops_view(start) + unpack_entries(dv, dirv, tv, k as int + 1).0);
            if sub_err.is_some() {
                proof {
                    lemma_error_stays(dv, dirv, tv, k as int + 1, tv.len() as int);
                }
                return sub_err;
            }
        } else {
            let e = UnpackError::CorruptBundle { path, reason: Corruption::UnknownKind };
            proof {
                lemma_error_stays(dv, dirv, tv, k as int + 1, tv.len() as int);
            }
            assert(ops_view(ops@) =~= ops_view(start) + unpack_entries(dv, dirv, tv, tv.len() as int).0);
            return Some(e);
        }
        k = k + 1;
    }
    None
}

/// The writes that unpacking a bundle makes, in order, and the error that
/// stopped it, if any; the writes are those made before the error.
#[derive(Debug)]
pub struct UnpackPlan {
    pub ops: Vec<WriteOp>,
    pub error: Option<UnpackError>,
}

/// Unpacks a bundle document, given by the fields of its top-level object,
/// into the target directory (the empty path).
pub fn plan_unpack(doc: &Vec<Field>) -> (r: UnpackPlan)
    ensures
        ops_view(r.ops@) == unpack_dir(fields_view(doc@), Seq::empty()).0,
        match r.error {
            Some(e) => unpack_dir(fields_view(doc@), Seq::empty()).1 == Some(e@),
            None => unpack_dir(fields_view(doc@), Seq::empty()).1 is None,
        },
{
    let root: Vec<String> = Vec::new();
    assert(strings_view(root@) =~= Seq::empty());
    let mut ops: Vec<WriteOp> = Vec::new();
    assert(ops_view(ops@) =~= Seq::empty());
    let error = unpack_recurse(doc, &root, &mut ops);
    assert(ops_view(ops@) =~= unpack_dir(fields_view(doc@), Seq::empty()).0);
    UnpackPlan { ops, error }
}

} // verus!
