use vstd::prelude::*;

use crate::names::{BUILD_ARTIFACT_KEY, BUILD_STEPS_KEY};
use crate::value::{
    fields_view, strings_view, find_field, lemma_value_view, obj_get, values_view, Field, Fields, JVal,
    Value,
};

verus! {

broadcast use crate::value::lemma_value_view;

/// One command of a build: a program and its arguments.
#[derive(Debug)]
pub struct Step {
    pub program: String,
    pub args: Vec<String>,
}

/// A build specification: commands run in order inside the build unit, and
/// the path, relative to it, of the file they produce.
#[derive(Debug)]
pub struct Build {
    pub steps: Vec<Step>,
    pub artifact: String,
}

/// Why a build gave no artifact.
#[derive(PartialEq, Eq, Structural, Clone, Copy, Debug)]
pub enum BuildError {
    /// The build specification is missing or malformed.
    InvalidSpec,
    /// A step exited with a failure status; later steps were not run.
    Failed { step: usize, status: Option<i32> },
    /// All steps succeeded but the artifact is not a regular file.
    ArtifactMissing,
}

/// The model of a step.
pub type StepModel = (Seq<char>, Seq<Seq<char>>);

impl Step {
    pub open spec fn view(&self) -> StepModel {
        (self.program@, strings_view(self.args@))
    }
}

impl Build {
    pub open spec fn steps_view(&self) -> Seq<StepModel> {
        Seq::new(self.steps@.len(), |i: int| self.steps@[i]@)
    }
}

/// The strings of a JSON array, or `None` where an element is no string.
pub open spec fn str_list(a: Seq<JVal>) -> Option<Seq<Seq<char>>> {
    if forall|i: int| 0 <= i < a.len() ==> a[i] is Str {
        Some(Seq::new(a.len(), |i: int| a[i]->Str_0))
    } else {
        None
    }
}

/// Whether a field maps a program to an array of strings.
pub open spec fn is_step(f: (Seq<char>, JVal)) -> bool {
    f.1 is Arr && str_list(f.1->Arr_0) is Some
}

/// The steps of an object mapping programs to argument arrays.
pub open spec fn step_list(fs: Fields) -> Option<Seq<StepModel>> {
    if forall|i: int| 0 <= i < fs.len() ==> is_step(#[trigger] fs[i]) {
        Some(Seq::new(fs.len(), |i: int| (fs[i].0, str_list(fs[i].1->Arr_0)->0)))
    } else {
        None
    }
}

/// The build specification that a JSON value describes: an object whose
/// `steps` map at least one program to an array of strings, and whose
/// `artifact` is a string.
pub open spec fn spec_build(v: JVal) -> Option<(Seq<StepModel>, Seq<char>)> {
    match v {
        JVal::Obj(fs) => match (obj_get(fs, BUILD_STEPS_KEY@), obj_get(fs, BUILD_ARTIFACT_KEY@)) {
            (Some(JVal::Obj(steps)), Some(JVal::Str(artifact))) => match step_list(steps) {
                Some(s) => if s.len() > 0 {
                    Some((s, artifact))
                } else {
                    None
                },
                None => None,
            },
            _ => None,
        },
        _ => None,
    }
}

fn strings_from(a: &Vec<Value>) -> (r: Option<Vec<String>>)
    ensures
        match r {
            Some(v) => str_list(values_view(a@)) == Some(strings_view(v@)),
            None => str_list(values_view(a@)) is None,
        },
{
    let mut out: Vec<String> = Vec::new();
    let mut i: usize = 0;
    while i < a.len()
        invariant
            i <= a@.len(),
            out@.len() == i,
            forall|j: int| 0 <= j < i ==> #[trigger] a@[j] is Str && a@[j]->Str_0@ == out@[j]@,
        decreases a@.len() - i,
    {
        match &a[i] {
            Value::Str(s) => {
                out.push(s.clone());
            },
            _ => {
                assert(!(values_view(a@)[i as int] is Str));
                return None;
            },
        }
        i = i + 1;
    }
    assert forall|j: int| 0 <= j < a@.len() implies values_view(a@)[j] is Str by {
        assert(a@[j] is Str);
    }
    assert(strings_view(out@) =~= Seq::new(a@.len(), |j: int| values_view(a@)[j]->Str_0));
    Some(out)
}

/// The JSON form of a list of arguments.
pub open spec fn args_json(args: Seq<Seq<char>>) -> JVal {
    JVal::Arr(Seq::new(args.len(), |j: int| JVal::Str(args[j])))
}

/// The JSON form of a list of steps: an object from programs to arguments.
pub open spec fn steps_json(steps: Seq<StepModel>) -> Fields {
    Seq::new(steps.len(), |i: int| (steps[i].0, args_json(steps[i].1)))
}

/// The JSON form of a build specification.
pub open spec fn build_json(steps: Seq<StepModel>, artifact: Seq<char>) -> JVal {
    JVal::Obj(
        seq![
            (BUILD_STEPS_KEY@, JVal::Obj(steps_json(steps))),
            (BUILD_ARTIFACT_KEY@, JVal::Str(artifact)),
        ],
    )
}

/// What a build runner does next.
#[derive(Debug)]
pub enum BuildAction {
    /// Run the step with this index.
    RunStep(usize),
    /// Read the artifact, the path of which is relative to the build unit.
    ReadArtifact,
    /// The build is over, with the artifact's bytes or the reason it failed.
    Finished(Result<Vec<u8>, BuildError>),
}

impl Build {
    /// A build with no steps yet that produces `artifact`.
    pub fn with_artifact(artifact: &str) -> (r: Build)
        ensures
            r.steps@.len() == 0,
            r.artifact@ == artifact@,
    {
        Build { steps: Vec::new(), artifact: artifact.to_owned() }
    }

    /// Appends a step that runs `program` with `args`.
    pub fn cmd(self, program: &str, args: &[&str]) -> (r: Build)
        ensures
            r.steps_view() == self.steps_view().push((program@, Seq::new(args@.len(), |i: int| args@[i]@))),
            r.artifact == self.artifact,
    {
        let mut owned: Vec<String> = Vec::new();
        let mut i: usize = 0;
        while i < args.len()
            invariant
                i <= args@.len(),
                owned@.len() == i,
                forall|j: int| 0 <= j < i ==> #[trigger] owned@[j]@ == args@[j]@,
            decreases args@.len() - i,
        {
            owned.push(args[i].to_owned());
            i = i + 1;
        }
        let Build { mut steps, artifact } = self;
        let ghost before = steps@;
        steps.push(Step { program: program.to_owned(), args: owned });
        let r = Build { steps, artifact };
        assert(strings_view(owned@) =~= Seq::new(args@.len(), |i: int| args@[i]@));
        assert(r.steps_view() =~= Seq::new(before.len(), |i: int| before[i]@).push(
            (program@, Seq::new(args@.len(), |i: int| args@[i]@)),
        ));
        r
    }

    /// Reads a build specification from its JSON form: an object whose
    /// `steps` map at least one program to an array of string arguments, and
    /// whose `artifact` is a string.
    #[verifier::loop_isolation(false)]
    pub fn from_value(v: &Value) -> (r: Result<Build, BuildError>)
        ensures
            match r {
                Ok(b) => spec_build(v@) == Some((b.steps_view(), b.artifact@)),
                Err(e) => spec_build(v@) is None && e == BuildError::InvalidSpec,
            },
    {
        let fs = match v {
            Value::Obj(fs) => fs,
            _ => {
                return Err(BuildError::InvalidSpec);
            },
        };
        let steps_key = String::from_str(BUILD_STEPS_KEY);
        let artifact_key = String::from_str(BUILD_ARTIFACT_KEY);
        let steps_fs = match find_field(fs, &steps_key) {
            Some(i) => match &fs[i].value {
                Value::Obj(s) => s,
                _ => {
                    return Err(BuildError::InvalidSpec);
                },
            },
            None => {
                return Err(BuildError::InvalidSpec);
            },
        };
        let artifact = match find_field(fs, &artifact_key) {
            Some(i) => match &fs[i].value {
                Value::Str(a) => a.clone(),
                _ => {
                    return Err(BuildError::InvalidSpec);
                },
            },
            None => {
                return Err(BuildError::InvalidSpec);
            },
        };
        let mut steps: Vec<Step> = Vec::new();
        let mut i: usize = 0;
        while i < steps_fs.len()
            invariant
                i <= steps_fs@.len(),
                steps@.len() == i,
                forall|j: int|
                    0 <= j < i ==> #[trigger] is_step(fields_view(steps_fs@)[j])
                        && steps@[j]@ == (fields_view(steps_fs@)[j].0, str_list(
                        fields_view(steps_fs@)[j].1->Arr_0,
                    )->0),
            decreases steps_fs@.len() - i,
        {
            let args = match &steps_fs[i].value {
                Value::Arr(a) => match strings_from(a) {
                    Some(args) => args,
                    None => {
                        proof {
                            lemma_value_view(steps_fs@[i as int].value);
                        }
                        assert(steps_fs@[i as int].value == Value::Arr(*a));
                        assert(!is_step(fields_view(steps_fs@)[i as int]));
                        return Err(BuildError::InvalidSpec);
                    },
                },
                _ => {
                    assert(!is_step(fields_view(steps_fs@)[i as int]));
                    return Err(BuildError::InvalidSpec);
                },
            };
            steps.push(Step { program: steps_fs[i].key.clone(), args });
            i = i + 1;
        }
        if steps.len() == 0 {
            return Err(BuildError::InvalidSpec);
        }
        let b = Build { steps, artifact };
        assert(b.steps_view() =~= step_list(fields_view(steps_fs@))->0);
        Ok(b)
    }

    /// The JSON form of this build specification.
    #[verifier::loop_isolation(false)]
    pub fn to_value(&self) -> (r: Value)
        ensures
            r@ == build_json(self.steps_view(), self.artifact@),
    {
        let mut steps: Vec<Field> = Vec::new();
        let mut i: usize = 0;
        while i < self.steps.len()
            invariant
                i <= self.steps@.len(),
                steps@.len() == i,
                forall|j: int|
                    0 <= j < i ==> (#[trigger] fields_view(steps@)[j]) == (
                    self.steps_view()[j].0,
                    args_json(self.steps_view()[j].1),
                ),
            decreases self.steps@.len() - i,
        {
            let step = &self.steps[i];
            let mut args: Vec<Value> = Vec::new();
            let mut k: usize = 0;
            while k < step.args.len()
                invariant
                    k <= step.args@.len(),
                    args@.len() == k,
                    forall|m: int| 0 <= m < k ==> (#[trigger] args@[m])@ == JVal::Str(step.args@[m]@),
                decreases step.args@.len() - k,
            {
                args.push(Value::Str(step.args[k].clone()));
                k = k + 1;
            }
            assert(values_view(args@) =~= args_json(self.steps_view()[i as int].1)->Arr_0);
            let ghost old_steps = steps@;
            steps.push(Field { key: step.program.clone(), value: Value::Arr(args) });
            assert(fields_view(steps@) =~= fields_view(old_steps).push(fields_view(steps@)[i as int]));
            assert(fields_view(steps@)[i as int] == (
                self.steps_view()[i as int].0,
                args_json(self.steps_view()[i as int].1),
            ));
            i = i + 1;
        }
        let mut top: Vec<Field> = Vec::new();
        top.push(Field { key: String::from_str(BUILD_STEPS_KEY), value: Value::Obj(steps) });
        top.push(Field { key: String::from_str(BUILD_ARTIFACT_KEY), value: Value::Str(self.artifact.clone()) });
        let r = Value::Obj(top);
        assert(fields_view(steps@) =~= steps_json(self.steps_view()));
        assert(fields_view(top@) =~= build_json(self.steps_view(), self.artifact@)->Obj_0);
        r
    }

    /// The first action of a run of this build.
    pub fn first_action(&self) -> (r: BuildAction)
        ensures
            self.steps@.len() == 0 ==> r is ReadArtifact,
            self.steps@.len() > 0 ==> r == BuildAction::RunStep(0),
    {
        if self.steps.len() == 0 {
            BuildAction::ReadArtifact
        } else {
            BuildAction::RunStep(0)
        }
    }

    /// The action after step `step` exited: a failure ends the build, a
    /// success goes on with the next step or, after the last one, with the
    /// artifact.
    pub fn after_step(&self, step: usize, success: bool, status: Option<i32>) -> (r: BuildAction)
        requires
            step < self.steps@.len(),
        ensures
            !success ==> r == BuildAction::Finished(Err(BuildError::Failed { step, status })),
            success && step + 1 < self.steps@.len() ==> r == BuildAction::RunStep((step + 1) as usize),
            success && step + 1 == self.steps@.len() ==> r is ReadArtifact,
    {
        if !success {
            BuildAction::Finished(Err(BuildError::Failed { step, status }))
        } else if step < self.steps.len() - 1 {
            BuildAction::RunStep(step + 1)
        } else {
            BuildAction::ReadArtifact
        }
    }
}

/// The end of a build once its artifact was looked for: its bytes when it is
/// a regular file (`Some`), `ArtifactMissing` otherwise.
pub fn after_artifact(found: Option<Vec<u8>>) -> (r: BuildAction)
    ensures
        match found {
            Some(b) => r == BuildAction::Finished(Ok(b)),
            None => r == BuildAction::Finished(Err(BuildError::ArtifactMissing)),
        },
{
    match found {
        Some(b) => BuildAction::Finished(Ok(b)),
        None => BuildAction::Finished(Err(BuildError::ArtifactMissing)),
    }
}

} // verus!
