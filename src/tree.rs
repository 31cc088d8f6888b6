use vstd::prelude::*;

use crate::runner::BuildError;
use crate::value::{strings_view, Value};

verus! {

/// A regular file of a directory snapshot: its bytes, and its content read
/// as JSON where it is valid JSON.
#[derive(Debug)]
pub struct FileData {
    pub bytes: Vec<u8>,
    pub json: Option<Value>,
}

/// A node of a directory snapshot.
#[derive(Debug)]
pub enum Node {
    File(FileData),
    Dir(Vec<Entry>),
}

/// A named entry of a directory, in the order in which the directory listed it.
#[derive(Debug)]
pub struct Entry {
    pub name: String,
    pub node: Node,
}

/// What running the build of the build unit at `path` gave.
#[derive(Debug)]
pub struct BuildOutcome {
    pub path: Vec<String>,
    pub result: Result<Vec<u8>, BuildError>,
}

/// Position of the first outcome recorded for `path`, or the length when there is none.
pub open spec fn build_pos(builds: Seq<BuildOutcome>, path: Seq<Seq<char>>) -> int
    decreases builds.len(),
{
    if builds.len() == 0 {
        0
    } else if strings_view(builds[0].path@) == path {
        0
    } else {
        1 + build_pos(builds.drop_first(), path)
    }
}

/// The outcome recorded for the build unit at `path`, if any.
pub open spec fn lookup_build(builds: Seq<BuildOutcome>, path: Seq<Seq<char>>) -> Option<
    Result<Seq<u8>, BuildError>,
> {
    let i = build_pos(builds, path);
    if i < builds.len() {
        Some(
            match builds[i].result {
                Ok(b) => Ok(b@),
                Err(e) => Err(e),
            },
        )
    } else {
        None
    }
}

proof fn lemma_build_pos(builds: Seq<BuildOutcome>, path: Seq<Seq<char>>, i: int)
    requires
        0 <= i <= builds.len(),
        forall|j: int| 0 <= j < i ==> strings_view(builds[j].path@) != path,
        i < builds.len() ==> strings_view(builds[i].path@) == path,
    ensures
        build_pos(builds, path) == i,
    decreases builds.len(),
{
    if builds.len() > 0 && i > 0 {
        assert(strings_view(builds[0].path@) != path);
        lemma_build_pos(builds.drop_first(), path, i - 1);
    }
}

/// Whether two paths are equal, name by name.
pub fn same_path(a: &Vec<String>, b: &Vec<String>) -> (r: bool)
    ensures
        r == (strings_view(a@) == strings_view(b@)),
{
    if a.len() != b.len() {
        assert(strings_view(a@).len() != strings_view(b@).len());
        return false;
    }
    let mut i: usize = 0;
    while i < a.len()
        invariant
            i <= a@.len(),
            a@.len() == b@.len(),
            forall|j: int| 0 <= j < i ==> #[trigger] a@[j]@ == b@[j]@,
        decreases a@.len() - i,
    {
        if !a[i].eq(&b[i]) {
            assert(strings_view(a@)[i as int] != strings_view(b@)[i as int]);
            return false;
        }
        i = i + 1;
    }
    assert(strings_view(a@) =~= strings_view(b@));
    true
}

/// Finds the outcome recorded for the build unit at `path`.
pub fn find_build(builds: &Vec<BuildOutcome>, path: &Vec<String>) -> (r: Option<usize>)
    ensures
        match r {
            Some(i) => i < builds@.len() && i == build_pos(builds@, strings_view(path@)),
            None => build_pos(builds@, strings_view(path@)) == builds@.len(),
        },
{
    let mut i: usize = 0;
    while i < builds.len()
        invariant
            i <= builds@.len(),
            forall|j: int| 0 <= j < i ==> strings_view(builds@[j].path@) != strings_view(path@),
        decreases builds@.len() - i,
    {
        if same_path(&builds[i].path, path) {
            proof {
                lemma_build_pos(builds@, strings_view(path@), i as int);
            }
            return Some(i);
        }
        i = i + 1;
    }
    proof {
        lemma_build_pos(builds@, strings_view(path@), i as int);
    }
    None
}

} // verus!
