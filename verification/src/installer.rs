//! Installing one package, as a sequence of requests to the caller: check
//! whether it is installed, fetch it, install its dependencies, scan it,
//! compile or build it, save and enable it, run its setup. Each answer
//! decides the next request; a failure ends the installation with a
//! message.
use vstd::prelude::*;
use crate::order::views;
use crate::pkg::{install_content_spec, scan_spec, Package, PackageV};
use crate::recipes::{
    install_plan, install_plan_spec, kind_of, needs_fastfetch_config, setup_lines,
    setup_lines_spec, InstallPlan, InstallPlanV, PkgKind,
};
use crate::text::{copy_string, from_chars, push_str};

verus! {

/// Where an installation stands.
#[derive(PartialEq, Eq, Structural, Clone, Copy)]
pub enum Stage {
    Start,
    AwaitInstalled,
    AwaitFetch,
    AwaitDeps,
    AwaitEnv,
    AwaitBuild,
    AwaitSave,
    AwaitEnable,
    AwaitSetup,
    Finished,
}

/// The installation of the package asked for by `name`.
pub struct Installer {
    name: String,
    stage: Stage,
    pkg: Option<Package>,
    kind: PkgKind,
}

pub struct InstallerV {
    pub name: Seq<char>,
    pub stage: Stage,
    pub pkg: Option<PackageV>,
    pub kind: PkgKind,
}

impl View for Installer {
    type V = InstallerV;

    closed spec fn view(&self) -> InstallerV {
        InstallerV {
            name: self.name@,
            stage: self.stage,
            pkg: match self.pkg {
                Some(p) => Some(p@),
                None => None,
            },
            kind: self.kind,
        }
    }
}

/// The caller's answer to the last request.
pub enum InstallEvent {
    /// The installation begins.
    Begin,
    /// Whether the package is installed already.
    Installed(bool),
    /// The package as fetched from the registry, if it was found.
    Fetched(Option<Package>),
    /// The request without a result was carried out.
    Completed,
    /// The result of compiling, building, saving or enabling.
    Outcome(Result<(), String>),
}

pub enum EventV {
    Begin,
    Installed(bool),
    Fetched(Option<PackageV>),
    Completed,
    Outcome(Result<(), Seq<char>>),
}

impl View for InstallEvent {
    type V = EventV;

    open spec fn view(&self) -> EventV {
        match self {
            InstallEvent::Begin => EventV::Begin,
            InstallEvent::Installed(b) => EventV::Installed(*b),
            InstallEvent::Fetched(p) => EventV::Fetched(
                match p {
                    Some(q) => Some(q@),
                    None => None,
                },
            ),
            InstallEvent::Completed => EventV::Completed,
            InstallEvent::Outcome(r) => EventV::Outcome(
                match r {
                    Ok(()) => Ok(()),
                    Err(e) => Err(e@),
                },
            ),
        }
    }
}

/// What the installer asks for next. The package that the requests are
/// about is [`Installer::package`].
pub enum InstallAction {
    /// Say whether the package is installed.
    CheckInstalled,
    /// Fetch the package.
    Fetch,
    /// Install each of these dependencies that is not installed yet, in
    /// order, then answer `Completed`.
    InstallDependencies(Vec<String>),
    /// The package is dangerous: print these lines on standard error and
    /// remove what is installed under its name. The installation is over.
    Reject(Vec<String>),
    /// Set the package's environment variables, then answer `Completed`.
    SetEnv,
    /// Compile the package.
    Compile,
    /// Build the package.
    Build,
    /// Save the package's metadata; first, when given, report the binary
    /// (`  -> VERB: PATH` for the binary named so in the binary directory,
    /// if it exists).
    Save(Option<(String, String)>),
    /// Enable the package.
    Enable,
    /// Run these command lines with `UPD_PKG_DIR` set to the package's
    /// directory, write the `fastfetch` configuration when asked, put the
    /// binary directory on `PATH`, then answer `Completed`.
    Setup(Vec<String>, bool),
    /// Print these lines on standard error. The installation is over.
    Fail(Vec<String>),
    /// Print this line. The package is installed.
    Installed(String),
    /// Nothing: the answer did not fit the last request.
    Idle,
}

pub enum ActionV {
    CheckInstalled,
    Fetch,
    InstallDependencies(Seq<Seq<char>>),
    Reject(Seq<Seq<char>>),
    SetEnv,
    Compile,
    Build,
    Save(Option<(Seq<char>, Seq<char>)>),
    Enable,
    Setup(Seq<Seq<char>>, bool),
    Fail(Seq<Seq<char>>),
    Installed(Seq<char>),
    Idle,
}

impl View for InstallAction {
    type V = ActionV;

    open spec fn view(&self) -> ActionV {
        match self {
            InstallAction::CheckInstalled => ActionV::CheckInstalled,
            InstallAction::Fetch => ActionV::Fetch,
            InstallAction::InstallDependencies(d) => ActionV::InstallDependencies(views(d@)),
            InstallAction::Reject(l) => ActionV::Reject(views(l@)),
            InstallAction::SetEnv => ActionV::SetEnv,
            InstallAction::Compile => ActionV::Compile,
            InstallAction::Build => ActionV::Build,
            InstallAction::Save(r) => ActionV::Save(
                match r {
                    Some(p) => Some((p.0@, p.1@)),
                    None => None,
                },
            ),
            InstallAction::Enable => ActionV::Enable,
            InstallAction::Setup(l, f) => ActionV::Setup(views(l@), *f),
            InstallAction::Fail(l) => ActionV::Fail(views(l@)),
            InstallAction::Installed(l) => ActionV::Installed(l@),
            InstallAction::Idle => ActionV::Idle,
        }
    }
}

/// `pkg: WHAT NAME: ERROR`.
pub open spec fn failed_line(what: Seq<char>, name: Seq<char>, err: Seq<char>) -> Seq<char> {
    "pkg: "@ + what + name + ": "@ + err
}

/// The name the binary of a package asked for by `name` has.
pub open spec fn binary_of(p: PackageV, name: Seq<char>) -> Seq<char> {
    match p.binary {
        Some(b) => b,
        None => name,
    }
}

pub open spec fn with_stage(s: InstallerV, stage: Stage) -> InstallerV {
    InstallerV { stage: stage, ..s }
}

/// One step of an installation: the state after the answer `e`, and the
/// next request.
pub open spec fn installer_step(s: InstallerV, e: EventV) -> (InstallerV, ActionV) {
    let n = s.name;
    let finished = with_stage(s, Stage::Finished);
    match (s.stage, e) {
        (Stage::Start, EventV::Begin) => (with_stage(s, Stage::AwaitInstalled), ActionV::CheckInstalled),
        (Stage::AwaitInstalled, EventV::Installed(true)) => (
            finished,
            ActionV::Fail(seq!["pkg: "@ + n + " is already installed"@]),
        ),
        (Stage::AwaitInstalled, EventV::Installed(false)) => (
            with_stage(s, Stage::AwaitFetch),
            ActionV::Fetch,
        ),
        (Stage::AwaitFetch, EventV::Fetched(None)) => (
            finished,
            ActionV::Fail(
                seq![
                    "pkg: package '"@ + n + "' not found in registry"@,
                    "       try 'pkg search "@ + n + "'"@,
                ],
            ),
        ),
        (Stage::AwaitFetch, EventV::Fetched(Some(p))) => (
            InstallerV { stage: Stage::AwaitDeps, pkg: Some(p), ..s },
            ActionV::InstallDependencies(p.depends),
        ),
        (Stage::AwaitDeps, EventV::Completed) => match s.pkg {
            Some(p) => match install_plan_spec(n, p) {
                InstallPlanV::Rejected(lines) => (finished, ActionV::Reject(lines)),
                InstallPlanV::Accepted(k) => (
                    InstallerV { stage: Stage::AwaitEnv, kind: k, ..s },
                    ActionV::SetEnv,
                ),
            },
            None => (s, ActionV::Idle),
        },
        (Stage::AwaitEnv, EventV::Completed) => match s.pkg {
            Some(p) => match s.kind {
                PkgKind::Compile => (with_stage(s, Stage::AwaitBuild), ActionV::Compile),
                PkgKind::Build => (with_stage(s, Stage::AwaitBuild), ActionV::Build),
                PkgKind::Plain => (with_stage(s, Stage::AwaitSave), ActionV::Save(None)),
            },
            None => (s, ActionV::Idle),
        },
        (Stage::AwaitBuild, EventV::Outcome(r)) => match s.pkg {
            Some(p) => {
                let compiled = s.kind == PkgKind::Compile;
                match r {
                    Err(err) => (
                        finished,
                        ActionV::Fail(
                            seq![
                                failed_line(
                                    if compiled {
                                        "compilation failed for "@
                                    } else {
                                        "build failed for "@
                                    },
                                    n,
                                    err,
                                ),
                            ],
                        ),
                    ),
                    Ok(()) => (
                        with_stage(s, Stage::AwaitSave),
                        ActionV::Save(
                            Some(
                                (
                                    if compiled {
                                        "compiled"@
                                    } else {
                                        "built"@
                                    },
                                    binary_of(p, n),
                                ),
                            ),
                        ),
                    ),
                }
            },
            None => (s, ActionV::Idle),
        },
        (Stage::AwaitSave, EventV::Outcome(r)) => match r {
            Err(err) => (finished, ActionV::Fail(seq![failed_line("failed to install "@, n, err)])),
            Ok(()) => (with_stage(s, Stage::AwaitEnable), ActionV::Enable),
        },
        (Stage::AwaitEnable, EventV::Outcome(r)) => match s.pkg {
            Some(p) => match r {
                Err(err) => (
                    finished,
                    ActionV::Fail(seq![failed_line("failed to enable "@, n, err)]),
                ),
                Ok(()) => if s.kind == PkgKind::Build {
                    (
                        with_stage(s, Stage::AwaitSetup),
                        ActionV::Setup(setup_lines_spec(p), n == "sysfetch"@),
                    )
                } else {
                    (finished, ActionV::Installed("  -> installed "@ + n))
                },
            },
            None => (s, ActionV::Idle),
        },
        (Stage::AwaitSetup, EventV::Completed) => (
            finished,
            ActionV::Installed("  -> installed "@ + n),
        ),
        _ => (s, ActionV::Idle),
    }
}

/// Once a package is fetched it is kept; from the scan on, it is a package
/// that the scan passed, of the kind recorded.
pub open spec fn installer_wf(s: InstallerV) -> bool {
    &&& (s.stage == Stage::AwaitDeps || s.stage == Stage::AwaitEnv || s.stage == Stage::AwaitBuild
        || s.stage == Stage::AwaitSave || s.stage == Stage::AwaitEnable || s.stage
        == Stage::AwaitSetup) ==> s.pkg is Some
    &&& (s.stage == Stage::AwaitEnv || s.stage == Stage::AwaitBuild || s.stage == Stage::AwaitSave
        || s.stage == Stage::AwaitEnable || s.stage == Stage::AwaitSetup) ==> (s.pkg matches Some(
        p) && scan_spec(install_content_spec(p)).len() == 0 && s.kind == kind_of(p))
}

fn line1(a: &str, b: &str) -> (r: String)
    ensures
        r@ == a@ + b@,
{
    let mut out: Vec<char> = Vec::new();
    push_str(&mut out, a);
    push_str(&mut out, b);
    from_chars(out.as_slice())
}

fn line2(a: &str, b: &str, c: &str) -> (r: String)
    ensures
        r@ == a@ + b@ + c@,
{
    let mut out: Vec<char> = Vec::new();
    push_str(&mut out, a);
    push_str(&mut out, b);
    push_str(&mut out, c);
    from_chars(out.as_slice())
}

fn fail_with(what: &str, name: &str, err: &str) -> (r: InstallAction)
    ensures
        r@ == ActionV::Fail(seq![failed_line(what@, name@, err@)]),
{
    let mut out: Vec<char> = Vec::new();
    push_str(&mut out, "pkg: ");
    push_str(&mut out, what);
    push_str(&mut out, name);
    push_str(&mut out, ": ");
    push_str(&mut out, err);
    let mut v: Vec<String> = Vec::new();
    v.push(from_chars(out.as_slice()));
    assert(views(v@) =~= seq![failed_line(what@, name@, err@)]);
    InstallAction::Fail(v)
}

fn copy_strings(v: &Vec<String>) -> (r: Vec<String>)
    ensures
        views(r@) == views(v@),
{
    let mut r: Vec<String> = Vec::new();
    let mut i: usize = 0;
    while i < v.len()
        invariant
            i <= v@.len(),
            views(r@) == views(v@).take(i as int),
        decreases v.len() - i,
    {
        let ghost before = views(r@);
        r.push(copy_string(&v[i]));
        assert(views(r@) =~= before.push(v@[i as int]@));
        assert(views(v@).take(i + 1) =~= views(v@).take(i as int).push(v@[i as int]@));
        i = i + 1;
    }
    assert(views(v@).take(i as int) =~= views(v@));
    r
}

impl Installer {
    pub closed spec fn wf(&self) -> bool {
        installer_wf(self@)
    }

    /// The installation of the package asked for by `name`, not begun.
    pub fn new(name: &str) -> (r: Installer)
        ensures
            r.wf(),
            r@.name == name@,
            r@.stage == Stage::Start,
            r@.pkg is None,
    {
        Installer { name: String::from_str(name), stage: Stage::Start, pkg: None, kind: PkgKind::Plain }
    }

    /// The fetched package, once there is one.
    pub fn package(&self) -> (r: Option<&Package>)
        ensures
            match r {
                Some(p) => self@.pkg == Some(p@),
                None => self@.pkg is None,
            },
    {
        match &self.pkg {
            Some(p) => Some(p),
            None => None,
        }
    }

    pub fn name(&self) -> (r: &str)
        ensures
            r@ == self@.name,
    {
        self.name.as_str()
    }

    /// Takes the answer to the last request and returns the next request.
    pub fn step(&mut self, event: InstallEvent) -> (r: InstallAction)
        requires
            old(self).wf(),
        ensures
            final(self).wf(),
            (final(self)@, r@) == installer_step(old(self)@, event@),
    {
        let ghost s = self@;
        let ghost ev = event@;
        match (self.stage, event) {
            (Stage::Start, InstallEvent::Begin) => {
                self.stage = Stage::AwaitInstalled;
                InstallAction::CheckInstalled
            },
            (Stage::AwaitInstalled, InstallEvent::Installed(true)) => {
                self.stage = Stage::Finished;
                let mut v: Vec<String> = Vec::new();
                v.push(line2("pkg: ", self.name.as_str(), " is already installed"));
                assert(views(v@) =~= seq!["pkg: "@ + s.name + " is already installed"@]);
                InstallAction::Fail(v)
            },
            (Stage::AwaitInstalled, InstallEvent::Installed(false)) => {
                self.stage = Stage::AwaitFetch;
                InstallAction::Fetch
            },
            (Stage::AwaitFetch, InstallEvent::Fetched(None)) => {
                self.stage = Stage::Finished;
                let mut v: Vec<String> = Vec::new();
                v.push(line2("pkg: package '", self.name.as_str(), "' not found in registry"));
                v.push(line2("       try 'pkg search ", self.name.as_str(), "'"));
                assert(views(v@) =~= seq![
                    "pkg: package '"@ + s.name + "' not found in registry"@,
                    "       try 'pkg search "@ + s.name + "'"@,
                ]);
                InstallAction::Fail(v)
            },
            (Stage::AwaitFetch, InstallEvent::Fetched(Some(p))) => {
                let deps = copy_strings(&p.depends);
                self.stage = Stage::AwaitDeps;
                self.pkg = Some(p);
                InstallAction::InstallDependencies(deps)
            },
            (Stage::AwaitDeps, InstallEvent::Completed) => {
                match &self.pkg {
                    Some(p) => match install_plan(self.name.as_str(), p) {
                        InstallPlan::Rejected(lines) => {
                            self.stage = Stage::Finished;
                            InstallAction::Reject(lines)
                        },
                        InstallPlan::Accepted(k) => {
                            self.stage = Stage::AwaitEnv;
                            self.kind = k;
                            InstallAction::SetEnv
                        },
                    },
                    None => InstallAction::Idle,
                }
            },
            (Stage::AwaitEnv, InstallEvent::Completed) => {
                if self.pkg.is_none() {
                    return InstallAction::Idle;
                }
                match self.kind {
                    PkgKind::Compile => {
                        self.stage = Stage::AwaitBuild;
                        InstallAction::Compile
                    },
                    PkgKind::Build => {
                        self.stage = Stage::AwaitBuild;
                        InstallAction::Build
                    },
                    PkgKind::Plain => {
                        self.stage = Stage::AwaitSave;
                        InstallAction::Save(None)
                    },
                }
            },
            (Stage::AwaitBuild, InstallEvent::Outcome(r)) => {
                let compiled = self.kind == PkgKind::Compile;
                let bin = match &self.pkg {
                    None => {
                        return InstallAction::Idle;
                    },
                    Some(p) => match &p.binary {
                        Some(b) => copy_string(b),
                        None => copy_string(&self.name),
                    },
                };
                match r {
                    Err(err) => {
                        self.stage = Stage::Finished;
                        if compiled {
                            fail_with("compilation failed for ", self.name.as_str(), err.as_str())
                        } else {
                            fail_with("build failed for ", self.name.as_str(), err.as_str())
                        }
                    },
                    Ok(()) => {
                        self.stage = Stage::AwaitSave;
                        let verb = if compiled {
                            String::from_str("compiled")
                        } else {
                            String::from_str("built")
                        };
                        InstallAction::Save(Some((verb, bin)))
                    },
                }
            },
            (Stage::AwaitSave, InstallEvent::Outcome(r)) => match r {
                Err(err) => {
                    self.stage = Stage::Finished;
                    fail_with("failed to install ", self.name.as_str(), err.as_str())
                },
                Ok(()) => {
                    self.stage = Stage::AwaitEnable;
                    InstallAction::Enable
                },
            },
            (Stage::AwaitEnable, InstallEvent::Outcome(r)) => {
                if self.pkg.is_none() {
                    return InstallAction::Idle;
                }
                match r {
                    Err(err) => {
                        self.stage = Stage::Finished;
                        fail_with("failed to enable ", self.name.as_str(), err.as_str())
                    },
                    Ok(()) => {
                        if self.kind == PkgKind::Build {
                            let lines = match &self.pkg {
                                Some(p) => setup_lines(p),
                                None => Vec::new(),
                            };
                            let fastfetch = needs_fastfetch_config(self.name.as_str());
                            self.stage = Stage::AwaitSetup;
                            InstallAction::Setup(lines, fastfetch)
                        } else {
                            self.stage = Stage::Finished;
                            InstallAction::Installed(line1("  -> installed ", self.name.as_str()))
                        }
                    },
                }
            },
            (Stage::AwaitSetup, InstallEvent::Completed) => {
                self.stage = Stage::Finished;
                InstallAction::Installed(line1("  -> installed ", self.name.as_str()))
            },
            _ => InstallAction::Idle,
        }
    }
}

/// A package that is saved, enabled or set up is one that the security
/// scan passed: an installation asks to save a package only after its scan
/// found nothing.
pub proof fn lemma_only_clean_packages_are_saved(s: InstallerV, e: EventV)
    requires
        installer_wf(s),
    ensures
        installer_wf(installer_step(s, e).0),
        installer_step(s, e).1 is Save || installer_step(s, e).1 is Enable
            || installer_step(s, e).1 is Setup ==> (installer_step(s, e).0.pkg matches Some(p)
            && scan_spec(install_content_spec(p)).len() == 0),
{
}

} // verus!
