//! A native source tree under management and the stages of its build.

use vstd::prelude::*;
use vstd::string::*;
use crate::command::{
    FailureView, Invocation, InvocationView, ProcessOutcome, Step, StepView, command_line_of, verdict,
};
use crate::configure::{Configure, ConfigureView};
use crate::copy::{FsOp, FsOpView, TreeCopy, TreeCopyView, ops_view};
use crate::text::{decimal, join_words, strings_view, to_decimal};

verus! {

/// `num_cpus::get` reports how many logical processors the host offers to
/// this process. The count differs from host to host and from run to run;
/// all that is taken from it is what its documentation promises, that it
/// is at least one. Nothing here is proved of it.
pub assume_specification[ num_cpus::get ]() -> (n: usize)
    ensures
        n >= 1,
;

/// Mathematical value of a [`Project`].
pub struct ProjectView {
    /// Name of the project, for diagnostics.
    pub project_name: Seq<char>,
    /// The directory that the stages run in.
    pub src_dir: Seq<char>,
}

/// A native source tree and the directory it is built in.
pub struct Project {
    project_name: String,
    src_dir: String,
}

impl View for Project {
    type V = ProjectView;

    closed spec fn view(&self) -> ProjectView {
        ProjectView { project_name: self.project_name@, src_dir: self.src_dir@ }
    }
}

/// What moving a project's sources takes, in order: the operations of
/// `before`, the tree copy `copy` run to its end, then the operations of
/// `after`.
#[derive(Clone, Debug)]
pub struct Relocation {
    pub before: Vec<FsOp>,
    pub copy: TreeCopy,
    pub after: Vec<FsOp>,
}

/// What comes before the walk of a copy into `dst`: a directory already
/// there is removed with all it holds, then the copy prepares the
/// directory anew.
pub open spec fn clear_destination(dst: Seq<char>, exists: bool) -> Seq<FsOpView> {
    let create = FsOpView::CreateDirAll { root: dst, rel: Seq::empty() };
    if exists {
        seq![FsOpView::RemoveDirAll { root: dst }, create]
    } else {
        seq![create]
    }
}

/// The step `desc` that runs `program` with `args` in the project's
/// directory.
pub open spec fn stage(p: ProjectView, desc: Seq<char>, program: Seq<char>, args: Seq<Seq<char>>)
    -> StepView {
    StepView { desc, command: InvocationView { program, args, dir: p.src_dir } }
}

/// The step that regenerates the configure script.
pub open spec fn autogen_step(p: ProjectView) -> StepView {
    stage(
        p,
        "generating the configure script for "@ + p.project_name + " using autogen.sh"@,
        "./autogen.sh"@,
        Seq::empty(),
    )
}

/// The step that builds with `jobs` parallel jobs: `make -j<jobs>`.
pub open spec fn make_step(p: ProjectView, jobs: nat) -> StepView {
    stage(p, "building "@ + p.project_name, "make"@, seq!["-j"@ + decimal(jobs)])
}

/// The step that runs the test target: `make check`.
pub open spec fn check_step(p: ProjectView) -> StepView {
    stage(p, "checking "@ + p.project_name, "make"@, seq!["check"@])
}

/// The step that installs: `make install`.
pub open spec fn install_step(p: ProjectView) -> StepView {
    stage(p, "installing "@ + p.project_name, "make"@, seq!["install"@])
}

/// A build whose process exits with a code other than zero has failed, and
/// the failure names the build step, the command line `make -j<jobs>` and
/// that exit code.
pub proof fn lemma_failed_build_is_reported(p: ProjectView, jobs: nat, code: i32)
    requires
        code != 0,
    ensures
        verdict(
            make_step(p, jobs).command,
            make_step(p, jobs).desc,
            ProcessOutcome::Exited(code),
        ) == Err::<(), FailureView>(
            FailureView::ProcessExitFailure {
                desc: "building "@ + p.project_name,
                command: "make -j"@ + decimal(jobs),
                status: Some(code),
            },
        ),
{
    reveal_strlit("make");
    reveal_strlit("-j");
    reveal_strlit("make -j");
    let arg = "-j"@ + decimal(jobs);
    let words = seq!["make"@] + seq![arg];
    assert(words.drop_last() =~= seq!["make"@]);
    assert(join_words(words.drop_last()) == "make"@);
    assert(join_words(words) == "make"@ + seq![' '] + arg);
    assert("make"@ + seq![' '] + arg =~= "make -j"@ + decimal(jobs));
    assert(command_line_of(make_step(p, jobs).command) == join_words(words));
}

impl Project {
    /// A project called `project_name` whose sources are in `src_dir`.
    pub fn new(project_name: &str, src_dir: &str) -> (p: Project)
        ensures
            p@ == (ProjectView { project_name: project_name@, src_dir: src_dir@ }),
    {
        Project { project_name: String::from_str(project_name), src_dir: String::from_str(src_dir) }
    }

    /// The directory that the stages run in.
    pub fn src_dir(&self) -> (dir: &str)
        ensures
            dir@ == self@.src_dir,
    {
        self.src_dir.as_str()
    }

    /// The name of the project.
    pub fn project_name(&self) -> (name: &str)
        ensures
            name@ == self@.project_name,
    {
        self.project_name.as_str()
    }

    /// Rebinds the project to a copy of its sources in `new_src_dir`.
    /// `exists` says whether something is at `new_src_dir` now: if so it is
    /// removed first, whatever it holds. The sources that were copied stay
    /// where they are.
    pub fn cp_src(&mut self, new_src_dir: &str, exists: bool) -> (plan: Relocation)
        ensures
            final(self)@ == (ProjectView { src_dir: new_src_dir@, ..old(self)@ }),
            ops_view(plan.before@) == clear_destination(new_src_dir@, exists),
            plan.copy@ == (TreeCopyView {
                src: old(self)@.src_dir,
                dst: new_src_dir@,
                pending: seq![Seq::<Seq<char>>::empty()],
            }),
            plan.copy.wf(),
            ops_view(plan.after@) == Seq::<FsOpView>::empty(),
    {
        let copy = TreeCopy::new(self.src_dir.as_str(), new_src_dir);
        let mut before: Vec<FsOp> = Vec::new();
        if exists {
            before.push(FsOp::RemoveDirAll { root: String::from_str(new_src_dir) });
        }
        let ghost removal = ops_view(before@);
        let mut create = copy.prepare();
        let ghost creation = ops_view(create@);
        before.append(&mut create);
        assert(ops_view(before@) =~= removal + creation);
        assert(ops_view(before@) =~= clear_destination(new_src_dir@, exists));
        self.src_dir = String::from_str(new_src_dir);
        let after: Vec<FsOp> = Vec::new();
        assert(ops_view(after@) =~= Seq::<FsOpView>::empty());
        Relocation { before, copy, after }
    }

    /// Rebinds the project to `new_src_dir` as [`Project::cp_src`] does, and
    /// removes the directory it was bound to once the copy is complete.
    pub fn mv_src(&mut self, new_src_dir: &str, exists: bool) -> (plan: Relocation)
        ensures
            final(self)@ == (ProjectView { src_dir: new_src_dir@, ..old(self)@ }),
            ops_view(plan.before@) == clear_destination(new_src_dir@, exists),
            plan.copy@ == (TreeCopyView {
                src: old(self)@.src_dir,
                dst: new_src_dir@,
                pending: seq![Seq::<Seq<char>>::empty()],
            }),
            plan.copy.wf(),
            ops_view(plan.after@) == seq![FsOpView::RemoveDirAll { root: old(self)@.src_dir }],
    {
        let old_src_dir = self.src_dir.clone();
        let plan = self.cp_src(new_src_dir, exists);
        let mut after: Vec<FsOp> = Vec::new();
        after.push(FsOp::RemoveDirAll { root: old_src_dir });
        assert(ops_view(after@) =~= seq![FsOpView::RemoveDirAll { root: old(self)@.src_dir }]);
        Relocation { before: plan.before, copy: plan.copy, after }
    }

    fn stage_step(&self, desc: String, program: &str, args: Vec<String>) -> (step: Step)
        ensures
            step@ == stage(self@, desc@, program@, strings_view(args@)),
    {
        Step {
            desc,
            command: Invocation {
                program: String::from_str(program),
                args,
                dir: self.src_dir.clone(),
            },
        }
    }

    /// The step that regenerates the configure script: `./autogen.sh`
    /// without arguments.
    pub fn autogen(&self) -> (step: Step)
        ensures
            step@ == autogen_step(self@),
    {
        let desc = String::from_str("generating the configure script for ").concat(
            self.project_name.as_str(),
        ).concat(" using autogen.sh");
        let args: Vec<String> = Vec::new();
        assert(strings_view(args@) =~= Seq::<Seq<char>>::empty());
        self.stage_step(desc, "./autogen.sh", args)
    }

    /// A `configure` run bound to the project's name and to the directory
    /// that it is in now; moving the project later does not change it.
    pub fn configure(&self) -> (c: Configure)
        ensures
            c@ == (ConfigureView {
                project_name: self@.project_name,
                args: Seq::empty(),
                dir: self@.src_dir,
            }),
    {
        Configure::new(self.project_name.as_str(), self.src_dir.as_str())
    }

    /// The build step with one job for each processor that the host
    /// offers: `make -j<N>` for some `N` of at least one.
    pub fn make(&self) -> (step: Step)
        ensures
            exists|jobs: nat| jobs >= 1 && step@ == #[trigger] make_step(self@, jobs),
    {
        let jobs: usize = num_cpus::get();
        let step = self.make_with_jobs(jobs);
        assert(step@ == make_step(self@, jobs as nat));
        step
    }

    /// The build step with `jobs` parallel jobs: `make -j<jobs>`.
    pub fn make_with_jobs(&self, jobs: usize) -> (step: Step)
        ensures
            step@ == make_step(self@, jobs as nat),
    {
        let desc = String::from_str("building ").concat(self.project_name.as_str());
        let arg = String::from_str("-j").concat(to_decimal(jobs as u64).as_str());
        let mut args: Vec<String> = Vec::new();
        args.push(arg);
        assert(strings_view(args@) =~= seq!["-j"@ + decimal(jobs as nat)]);
        self.stage_step(desc, "make", args)
    }

    /// The step that runs the test target: `make check`.
    pub fn check(&self) -> (step: Step)
        ensures
            step@ == check_step(self@),
    {
        let desc = String::from_str("checking ").concat(self.project_name.as_str());
        let mut args: Vec<String> = Vec::new();
        args.push(String::from_str("check"));
        assert(strings_view(args@) =~= seq!["check"@]);
        self.stage_step(desc, "make", args)
    }

    /// The step that installs: `make install`.
    pub fn install(&self) -> (step: Step)
        ensures
            step@ == install_step(self@),
    {
        let desc = String::from_str("installing ").concat(self.project_name.as_str());
        let mut args: Vec<String> = Vec::new();
        args.push(String::from_str("install"));
        assert(strings_view(args@) =~= seq!["install"@]);
        self.stage_step(desc, "make", args)
    }
}

} // verus!
