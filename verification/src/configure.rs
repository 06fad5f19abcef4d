//! The `configure` invocation under construction.
//!
//! Options are turned into arguments as they are requested and kept in the
//! order of the requests; nothing is reordered, merged or validated.

use vstd::prelude::*;
use vstd::string::*;
use crate::command::{Invocation, InvocationView, Step, StepView};
use crate::text::strings_view;

verus! {

/// Mathematical value of a [`Configure`].
pub struct ConfigureView {
    /// Name of the project, for diagnostics.
    pub project_name: Seq<char>,
    /// Arguments requested so far, in the order of the requests.
    pub args: Seq<Seq<char>>,
    /// Directory in which `configure` will run.
    pub dir: Seq<char>,
}

/// A `configure` run that has not started yet.
pub struct Configure {
    project_name: String,
    args: Vec<String>,
    dir: String,
}

impl View for Configure {
    type V = ConfigureView;

    closed spec fn view(&self) -> ConfigureView {
        ConfigureView {
            project_name: self.project_name@,
            args: strings_view(self.args@),
            dir: self.dir@,
        }
    }
}

/// The argument that sets the installation prefix.
pub open spec fn prefix_arg(path: Seq<char>) -> Seq<char> {
    "--prefix="@ + path
}

/// The argument that says where the package `pkg` is installed.
pub open spec fn pkg_prefix_arg(pkg: Seq<char>, path: Seq<char>) -> Seq<char> {
    "--with-"@ + pkg + "-prefix="@ + path
}

/// The argument that switches a feature on.
pub open spec fn enable_arg(feature: Seq<char>) -> Seq<char> {
    "--enable-"@ + feature
}

/// The argument that switches a feature off.
pub open spec fn disable_arg(feature: Seq<char>) -> Seq<char> {
    "--disable-"@ + feature
}

/// One request for an option of `configure`.
pub enum Request {
    /// The installation prefix.
    Prefix(Seq<char>),
    /// Where a package is installed: its name and the place.
    PkgPrefix(Seq<char>, Seq<char>),
    /// A feature to switch on.
    Enable(Seq<char>),
    /// A feature to switch off.
    Disable(Seq<char>),
}

/// The argument that a request stands for.
pub open spec fn arg_of(r: Request) -> Seq<char> {
    match r {
        Request::Prefix(path) => prefix_arg(path),
        Request::PkgPrefix(pkg, path) => pkg_prefix_arg(pkg, path),
        Request::Enable(feature) => enable_arg(feature),
        Request::Disable(feature) => disable_arg(feature),
    }
}

/// The builder after one more request: its argument comes last.
pub open spec fn after_request(c: ConfigureView, r: Request) -> ConfigureView {
    ConfigureView { project_name: c.project_name, args: c.args.push(arg_of(r)), dir: c.dir }
}

/// The builder after a list of requests, made in order.
pub open spec fn after_requests(c: ConfigureView, requests: Seq<Request>) -> ConfigureView
    decreases requests.len(),
{
    if requests.len() == 0 {
        c
    } else {
        after_request(after_requests(c, requests.drop_last()), requests.last())
    }
}

/// Whatever is requested, in whatever order: the command line holds what
/// it held before, then the argument of each request, in the order of the
/// requests, and runs where the builder was bound.
pub proof fn lemma_arguments_in_request_order(c: ConfigureView, requests: Seq<Request>)
    ensures
        configure_step(after_requests(c, requests)).command.args == c.args + Seq::new(
            requests.len(),
            |i: int| arg_of(requests[i]),
        ),
        configure_step(after_requests(c, requests)).command.dir == c.dir,
        after_requests(c, requests).project_name == c.project_name,
    decreases requests.len(),
{
    if requests.len() == 0 {
        assert(c.args =~= c.args + Seq::new(0, |i: int| arg_of(requests[i])));
    } else {
        let front = requests.drop_last();
        lemma_arguments_in_request_order(c, front);
        assert(after_requests(c, requests).args =~= c.args + Seq::new(
            requests.len(),
            |i: int| arg_of(requests[i]),
        ));
    }
}

/// The step that runs `configure` as built up in `c`.
pub open spec fn configure_step(c: ConfigureView) -> StepView {
    StepView {
        desc: "configuring "@ + c.project_name,
        command: InvocationView { program: "./configure"@, args: c.args, dir: c.dir },
    }
}

impl Configure {
    /// A `configure` run for `project_name` in `src_dir`, without arguments.
    pub fn new(project_name: &str, src_dir: &str) -> (c: Configure)
        ensures
            c@ == (ConfigureView {
                project_name: project_name@,
                args: Seq::empty(),
                dir: src_dir@,
            }),
    {
        let c = Configure {
            project_name: String::from_str(project_name),
            args: Vec::new(),
            dir: String::from_str(src_dir),
        };
        assert(c@.args =~= Seq::<Seq<char>>::empty());
        c
    }

    /// Changes the directory in which `configure` will run.
    pub fn src_dir(&mut self, src_dir: &str)
        ensures
            final(self)@ == (ConfigureView { dir: src_dir@, ..old(self)@ }),
    {
        self.dir = String::from_str(src_dir);
    }

    fn push_arg(&mut self, arg: String)
        ensures
            final(self)@ == (ConfigureView { args: old(self)@.args.push(arg@), ..old(self)@ }),
    {
        self.args.push(arg);
        assert(strings_view(self.args@) =~= strings_view(old(self).args@).push(arg@));
    }

    /// Appends `--prefix=<path>`.
    pub fn prefix(&mut self, path: &str)
        ensures
            final(self)@ == after_request(old(self)@, Request::Prefix(path@)),
    {
        let arg = String::from_str("--prefix=").concat(path);
        self.push_arg(arg);
    }

    /// Appends `--with-<pkg>-prefix=<path>`.
    pub fn with_pkg_prefix(&mut self, pkg: &str, path: &str)
        ensures
            final(self)@ == after_request(old(self)@, Request::PkgPrefix(pkg@, path@)),
    {
        let arg = String::from_str("--with-").concat(pkg).concat("-prefix=").concat(path);
        self.push_arg(arg);
    }

    /// Appends `--enable-<feature>`.
    pub fn enable(&mut self, feature: &str)
        ensures
            final(self)@ == after_request(old(self)@, Request::Enable(feature@)),
    {
        let arg = String::from_str("--enable-").concat(feature);
        self.push_arg(arg);
    }

    /// Appends `--disable-<feature>`.
    pub fn disable(&mut self, feature: &str)
        ensures
            final(self)@ == after_request(old(self)@, Request::Disable(feature@)),
    {
        let arg = String::from_str("--disable-").concat(feature);
        self.push_arg(arg);
    }

    /// Finishes the builder: the step that runs `./configure` with the
    /// arguments exactly as requested, in the directory bound to it.
    pub fn configure(self) -> (step: Step)
        ensures
            step@ == configure_step(self@),
    {
        let desc = String::from_str("configuring ").concat(self.project_name.as_str());
        Step {
            desc,
            command: Invocation {
                program: String::from_str("./configure"),
                args: self.args,
                dir: self.dir,
            },
        }
    }
}

} // verus!
