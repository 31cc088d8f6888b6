use vstd::prelude::*;

verus! {

/// A JSON value as the bundle codec sees it: strings, arrays and objects are
/// read by the codec, every other value (numbers, booleans, null) is carried
/// through as its JSON text.
#[derive(Debug)]
pub enum Value {
    Str(String),
    Arr(Vec<Value>),
    Obj(Vec<Field>),
    Other(String),
}

/// One key of an object and its value.
#[derive(Debug)]
pub struct Field {
    pub key: String,
    pub value: Value,
}

/// The mathematical model of a `Value`.
pub enum JVal {
    Str(Seq<char>),
    Arr(Seq<JVal>),
    Obj(Seq<(Seq<char>, JVal)>),
    Other(Seq<char>),
}

/// The model of an object's fields, in order.
pub type Fields = Seq<(Seq<char>, JVal)>;

impl Value {
    pub open spec fn view(&self) -> JVal
        decreases self,
    {
        match self {
            Value::Str(s) => JVal::Str(s@),
            Value::Arr(v) => JVal::Arr(
                Seq::new(
                    v@.len(),
                    |i: int|
                        if 0 <= i < v@.len() {
                            v@[i].view()
                        } else {
                            JVal::Other(Seq::empty())
                        },
                ),
            ),
            Value::Obj(fs) => JVal::Obj(
                Seq::new(
                    fs@.len(),
                    |i: int|
                        if 0 <= i < fs@.len() {
                            (fs@[i].key@, fs@[i].value.view())
                        } else {
                            (Seq::empty(), JVal::Other(Seq::empty()))
                        },
                ),
            ),
            Value::Other(s) => JVal::Other(s@),
        }
    }
}

/// The model of a list of fields.
pub open spec fn fields_view(fs: Seq<Field>) -> Fields {
    Seq::new(fs.len(), |i: int| (fs[i].key@, fs[i].value@))
}

/// The model of a list of strings, such as a path.
pub open spec fn strings_view(v: Seq<String>) -> Seq<Seq<char>> {
    Seq::new(v.len(), |i: int| v[i]@)
}

/// The model of a list of values.
pub open spec fn values_view(vs: Seq<Value>) -> Seq<JVal> {
    Seq::new(vs.len(), |i: int| vs[i]@)
}

/// The view of a value, one level down.
pub broadcast proof fn lemma_value_view(v: Value)
    ensures
        #[trigger] v@ == match v {
            Value::Str(s) => JVal::Str(s@),
            Value::Arr(vs) => JVal::Arr(values_view(vs@)),
            Value::Obj(fs) => JVal::Obj(fields_view(fs@)),
            Value::Other(s) => JVal::Other(s@),
        },
{
    match v {
        Value::Arr(vs) => {
            assert(v@->Arr_0 =~= values_view(vs@));
        },
        Value::Obj(fs) => {
            assert(v@->Obj_0 =~= fields_view(fs@));
        },
        _ => {},
    }
}

/// Position of the first field named `k`, or the length when there is none.
pub open spec fn key_pos(s: Fields, k: Seq<char>) -> int
    decreases s.len(),
{
    if s.len() == 0 {
        0
    } else if s[0].0 == k {
        0
    } else {
        1 + key_pos(s.drop_first(), k)
    }
}

pub open spec fn has_key(s: Fields, k: Seq<char>) -> bool {
    exists|i: int| 0 <= i < s.len() && s[i].0 == k
}

/// The value of the first field named `k`.
pub open spec fn obj_get(s: Fields, k: Seq<char>) -> Option<JVal> {
    if key_pos(s, k) < s.len() {
        Some(s[key_pos(s, k)].1)
    } else {
        None
    }
}

/// Sets field `k` to `v`: in place where it is present, at the end otherwise.
pub open spec fn obj_insert(s: Fields, k: Seq<char>, v: JVal) -> Fields {
    if key_pos(s, k) < s.len() {
        s.update(key_pos(s, k), (k, v))
    } else {
        s.push((k, v))
    }
}

pub proof fn lemma_key_pos(s: Fields, k: Seq<char>, i: int)
    requires
        0 <= i <= s.len(),
        forall|j: int| 0 <= j < i ==> s[j].0 != k,
        i < s.len() ==> s[i].0 == k,
    ensures
        key_pos(s, k) == i,
    decreases s.len(),
{
    if s.len() > 0 && i > 0 {
        assert(s[0].0 != k);
        lemma_key_pos(s.drop_first(), k, i - 1);
    }
}

pub proof fn lemma_key_pos_bounds(s: Fields, k: Seq<char>)
    ensures
        0 <= key_pos(s, k) <= s.len(),
        key_pos(s, k) < s.len() ==> s[key_pos(s, k)].0 == k,
        forall|j: int| 0 <= j < key_pos(s, k) ==> s[j].0 != k,
        key_pos(s, k) < s.len() <==> has_key(s, k),
    decreases s.len(),
{
    if s.len() > 0 && s[0].0 != k {
        let t = s.drop_first();
        lemma_key_pos_bounds(t, k);
        assert forall|j: int| 0 <= j < key_pos(s, k) implies s[j].0 != k by {
            if j > 0 {
                assert(s[j] == t[j - 1]);
            }
        }
        if has_key(s, k) {
            let w = choose|w: int| 0 <= w < s.len() && s[w].0 == k;
            assert(t[w - 1].0 == k);
        }
        if has_key(t, k) {
            let w = choose|w: int| 0 <= w < t.len() && t[w].0 == k;
            assert(s[w + 1].0 == k);
        }
    }
}

/// Setting a field and reading it back gives the value set; other fields
/// keep their values.
pub proof fn lemma_insert_get(s: Fields, k: Seq<char>, v: JVal, k2: Seq<char>)
    ensures
        obj_get(obj_insert(s, k, v), k) == Some(v),
        k2 != k ==> obj_get(obj_insert(s, k, v), k2) == obj_get(s, k2),
        has_key(obj_insert(s, k, v), k2) <==> (has_key(s, k2) || k2 == k),
{
    let t = obj_insert(s, k, v);
    lemma_key_pos_bounds(s, k);
    lemma_key_pos_bounds(s, k2);
    lemma_key_pos_bounds(t, k);
    lemma_key_pos_bounds(t, k2);
    let p = key_pos(s, k);
    if p < s.len() {
        lemma_key_pos(t, k, p);
        if k2 != k {
            lemma_key_pos(t, k2, key_pos(s, k2));
        }
        if has_key(s, k2) {
            let w = choose|w: int| 0 <= w < s.len() && s[w].0 == k2;
            assert(t[w].0 == k2);
        }
        if has_key(t, k2) && k2 != k {
            let w = choose|w: int| 0 <= w < t.len() && t[w].0 == k2;
            assert(s[w].0 == k2);
        }
    } else {
        lemma_key_pos(t, k, p);
        if k2 != k {
            if key_pos(s, k2) < s.len() {
                lemma_key_pos(t, k2, key_pos(s, k2));
            } else {
                lemma_key_pos(t, k2, t.len() as int);
            }
        }
        if has_key(s, k2) {
            let w = choose|w: int| 0 <= w < s.len() && s[w].0 == k2;
            assert(t[w].0 == k2);
        }
        if has_key(t, k2) && k2 != k {
            let w = choose|w: int| 0 <= w < t.len() && t[w].0 == k2;
            assert(s[w].0 == k2);
        }
    }
}

/// Setting a field that is not there yet appends it.
pub proof fn lemma_fresh_insert(s: Fields, k: Seq<char>, v: JVal)
    requires
        !has_key(s, k),
    ensures
        obj_insert(s, k, v) == s.push((k, v)),
{
    lemma_key_pos_bounds(s, k);
}

/// A field is present exactly where reading it gives a value.
pub proof fn lemma_get_has(s: Fields, k: Seq<char>)
    ensures
        obj_get(s, k) is Some <==> has_key(s, k),
{
    lemma_key_pos_bounds(s, k);
}

/// Finds the first field named `k`.
pub fn find_field(fs: &Vec<Field>, k: &String) -> (r: Option<usize>)
    ensures
        match r {
            Some(i) => i < fs@.len() && i == key_pos(fields_view(fs@), k@),
            None => key_pos(fields_view(fs@), k@) == fs@.len(),
        },
{
    let mut i: usize = 0;
    while i < fs.len()
        invariant
            0 <= i <= fs@.len(),
            forall|j: int| 0 <= j < i ==> fields_view(fs@)[j].0 != k@,
        decreases fs@.len() - i,
    {
        if fs[i].key.eq(k) {
            proof {
                lemma_key_pos(fields_view(fs@), k@, i as int);
            }
            return Some(i);
        }
        i = i + 1;
    }
    proof {
        lemma_key_pos(fields_view(fs@), k@, i as int);
    }
    None
}

/// Sets field `k` of an object to `v`.
pub fn insert_field(fs: &mut Vec<Field>, k: String, v: Value)
    ensures
        fields_view(final(fs)@) == obj_insert(fields_view(old(fs)@), k@, v@),
{
    match find_field(fs, &k) {
        Some(i) => {
            fs.set(i, Field { key: k, value: v });
            assert(fields_view(fs@) =~= fields_view(old(fs)@).update(i as int, (k@, v@)));
        },
        None => {
            fs.push(Field { key: k, value: v });
            assert(fields_view(fs@) =~= fields_view(old(fs)@).push((k@, v@)));
        },
    }
}

/// A copy of a path.
pub fn clone_path(path: &Vec<String>) -> (r: Vec<String>)
    ensures
        strings_view(r@) == strings_view(path@),
{
    let mut out: Vec<String> = Vec::new();
    let mut i: usize = 0;
    while i < path.len()
        invariant
            i <= path@.len(),
            out@.len() == i,
            forall|j: int| 0 <= j < i ==> (#[trigger] out@[j])@ == path@[j]@,
        decreases path@.len() - i,
    {
        out.push(path[i].clone());
        i = i + 1;
    }
    assert(strings_view(out@) =~= strings_view(path@));
    out
}

impl Value {
    /// A copy of this value, all the way down.
    #[verifier::loop_isolation(false)]
    pub fn deep_clone(&self) -> (r: Value)
        ensures
            r@ == self@,
        decreases self, 1nat,
    {
        match self {
            Value::Str(s) => Value::Str(s.clone()),
            Value::Other(s) => Value::Other(s.clone()),
            Value::Arr(vs) => {
                let mut out: Vec<Value> = Vec::new();
                let mut i: usize = 0;
                while i < vs.len()
                    invariant
                        i <= vs@.len(),
                        out@.len() == i,
                        forall|j: int| 0 <= j < i ==> (#[trigger] out@[j])@ == vs@[j]@,
                    decreases vs@.len() - i,
                {
                    out.push(vs[i].deep_clone());
                    i = i + 1;
                }
                proof {
                    lemma_value_view(*self);
                    lemma_value_view(Value::Arr(out));
                }
                assert(values_view(out@) =~= values_view(vs@));
                Value::Arr(out)
            },
            Value::Obj(fs) => {
                let out = clone_fields(fs);
                proof {
                    lemma_value_view(*self);
                    lemma_value_view(Value::Obj(out));
                }
                Value::Obj(out)
            },
        }
    }
}

/// A copy of a list of fields, all the way down.
pub fn clone_fields(fs: &Vec<Field>) -> (r: Vec<Field>)
    ensures
        fields_view(r@) == fields_view(fs@),
    decreases fs@, 0nat,
{
    let mut out: Vec<Field> = Vec::new();
    let mut i: usize = 0;
    while i < fs.len()
        invariant
            i <= fs@.len(),
            out@.len() == i,
            forall|j: int| 0 <= j < i ==> (#[trigger] out@[j]).key@ == fs@[j].key@ && out@[j].value@ == fs@[j].value@,
        decreases fs@.len() - i,
    {
        out.push(Field { key: fs[i].key.clone(), value: fs[i].value.deep_clone() });
        i = i + 1;
    }
    assert(fields_view(out@) =~= fields_view(fs@));
    out
}

} // verus!
