//! How packages are turned into programs: the commands that build a `build`
//! package from its repository, the compiler command for a `compile`
//! package, and the setup lines a built package runs after it is enabled.
use vstd::prelude::*;
use crate::builtins::{script_lines, source_lines};
use crate::order::views;
use crate::pkg::{
    bin_name_spec, install_content, install_content_spec, is_type, lemma_scan_rejects_exactly,
    malicious_checks, scan_malicious, scan_spec, Compiler, FileV, Package, PackageV,
};
use crate::num::{decimal, push_decimal};
use crate::text::{contains, lowercase};
use crate::text::{copy_string, ends_with, from_chars, has_suffix, push_str, str_eq, to_chars};

verus! {

/// A command of a build: where it runs (a directory below the clone, empty
/// for the clone itself), what it runs, what is printed before it, the
/// error when it fails, and the notes printed then.
pub struct BuildStep {
    pub dir: String,
    pub program: String,
    pub args: Vec<String>,
    pub announce: String,
    pub failure: String,
    pub notes: Vec<String>,
}

pub struct StepV {
    pub dir: Seq<char>,
    pub program: Seq<char>,
    pub args: Seq<Seq<char>>,
    pub announce: Seq<char>,
    pub failure: Seq<char>,
    pub notes: Seq<Seq<char>>,
}

impl View for BuildStep {
    type V = StepV;

    open spec fn view(&self) -> StepV {
        StepV {
            dir: self.dir@,
            program: self.program@,
            args: views(self.args@),
            announce: self.announce@,
            failure: self.failure@,
            notes: views(self.notes@),
        }
    }
}

/// How a `build` package is built: the binary's name, the clone of its
/// repository, the commands run in the clone after the package's files are
/// written there, and where the built binary is found (its path below the
/// clone), or the error for a build type that is not known.
pub struct BuildPlan {
    pub bin_name: String,
    pub clone: BuildStep,
    pub steps: Vec<BuildStep>,
    pub built: Result<Vec<String>, String>,
}

pub struct PlanV {
    pub bin_name: Seq<char>,
    pub clone: StepV,
    pub steps: Seq<StepV>,
    pub built: Result<Seq<Seq<char>>, Seq<char>>,
}

impl View for BuildPlan {
    type V = PlanV;

    open spec fn view(&self) -> PlanV {
        PlanV {
            bin_name: self.bin_name@,
            clone: self.clone@,
            steps: self.steps@.map_values(|s: BuildStep| s@),
            built: match self.built {
                Ok(p) => Ok(views(p@)),
                Err(e) => Err(e@),
            },
        }
    }
}

pub open spec fn clone_step(url: Seq<char>) -> StepV {
    StepV {
        dir: Seq::empty(),
        program: "git"@,
        args: seq!["clone"@, "--depth"@, "1"@, url, "."@],
        announce: "  -> cloning "@ + url + " ..."@,
        failure: "git clone failed"@,
        notes: Seq::empty(),
    }
}

pub open spec fn cmake_args() -> Seq<Seq<char>> {
    seq![
        ".."@,
        "-DCMAKE_BUILD_TYPE=Release"@,
        "-DENABLE_VULKAN=OFF"@,
        "-DENABLE_WAYLAND=OFF"@,
        "-DENABLE_X11=OFF"@,
        "-DENABLE_DRM=OFF"@,
        "-DENABLE_DDC=OFF"@,
        "-DENABLE_RPM=OFF"@,
        "-DENABLE_DEB=OFF"@,
        "-DENABLE_PACMAN=OFF"@,
        "-DENABLE_ZFS=OFF"@,
        "-DENABLE_LM_SENSORS=OFF"@,
        "-DENABLE_OPENCL=OFF"@,
    ]
}

/// `  -> TOOL failed. Build dir kept at: DIR`.
pub open spec fn kept_note(tool: Seq<char>, dir: Seq<char>) -> Seq<char> {
    "  -> "@ + tool + " failed. Build dir kept at: "@ + dir
}

/// The commands for a build type, with `dir` the clone's directory as
/// shown in the notes.
pub open spec fn build_steps(build_type: Option<Seq<char>>, dir: Seq<char>) -> Seq<StepV> {
    match build_type {
        None => seq![
            StepV {
                dir: Seq::empty(),
                program: "make"@,
                args: Seq::empty(),
                announce: "  -> running make ..."@,
                failure: "make failed"@,
                notes: seq![kept_note("make"@, dir), "  -> cd "@ + dir + " && make"@],
            },
        ],
        Some(t) => if t == "cmake"@ {
            seq![
                StepV {
                    dir: "build_cmake"@,
                    program: "cmake"@,
                    args: cmake_args(),
                    announce: "  -> running cmake ..."@,
                    failure: "cmake configuration failed"@,
                    notes: seq![
                        kept_note("cmake"@, dir),
                        "  -> cd "@ + dir
                            + " && cd build_cmake && cmake .. -DCMAKE_BUILD_TYPE=Release"@,
                    ],
                },
                StepV {
                    dir: "build_cmake"@,
                    program: "make"@,
                    args: seq!["-j"@],
                    announce: "  -> running make (this may take a while) ..."@,
                    failure: "make failed"@,
                    notes: seq![kept_note("make"@, dir), "  -> cd "@ + dir + "/build_cmake && make -j"@],
                },
            ]
        } else if t == "cargo"@ {
            seq![
                StepV {
                    dir: Seq::empty(),
                    program: "cargo"@,
                    args: seq!["build"@, "--release"@],
                    announce: "  -> running cargo build --release ..."@,
                    failure: "cargo build failed"@,
                    notes: seq![
                        kept_note("cargo build"@, dir),
                        "  -> cd "@ + dir + " && cargo build --release"@,
                    ],
                },
            ]
        } else {
            Seq::empty()
        },
    }
}

/// Where the built binary is, below the clone.
pub open spec fn built_path(build_type: Option<Seq<char>>, bin: Seq<char>) -> Result<
    Seq<Seq<char>>,
    Seq<char>,
> {
    match build_type {
        None => Ok(seq![bin]),
        Some(t) => if t == "cmake"@ {
            Ok(seq!["build_cmake"@, bin])
        } else if t == "cargo"@ {
            Ok(seq!["target"@, "release"@, bin])
        } else {
            Err("unsupported build type: "@ + t)
        },
    }
}

/// The plan for a package, or `None` when it names no repository.
pub open spec fn build_plan_spec(p: PackageV, dir: Seq<char>) -> Option<PlanV> {
    match p.source_url {
        None => None,
        Some(url) => Some(
            PlanV {
                bin_name: bin_name_spec(p),
                clone: clone_step(url),
                steps: build_steps(p.build_type, dir),
                built: built_path(p.build_type, bin_name_spec(p)),
            },
        ),
    }
}

fn strs(items: &[&str]) -> (r: Vec<String>)
    ensures
        views(r@) == items@.map_values(|s: &str| s@),
{
    let mut r: Vec<String> = Vec::new();
    let mut i: usize = 0;
    while i < items.len()
        invariant
            i <= items@.len(),
            views(r@) == items@.take(i as int).map_values(|s: &str| s@),
        decreases items.len() - i,
    {
        let ghost before = views(r@);
        r.push(String::from_str(items[i]));
        assert(items@.take(i + 1) =~= items@.take(i as int).push(items@[i as int]));
        assert(views(r@) =~= before.push(items@[i as int]@));
        assert(items@.take(i + 1).map_values(|s: &str| s@) =~= items@.take(i as int).map_values(
            |s: &str| s@,
        ).push(items@[i as int]@));
        i = i + 1;
    }
    assert(items@.take(i as int) =~= items@);
    r
}

fn text2(a: &str, b: &str) -> (r: String)
    ensures
        r@ == a@ + b@,
{
    let mut out: Vec<char> = Vec::new();
    push_str(&mut out, a);
    push_str(&mut out, b);
    from_chars(out.as_slice())
}

fn text3(a: &str, b: &str, c: &str) -> (r: String)
    ensures
        r@ == a@ + b@ + c@,
{
    let mut out: Vec<char> = Vec::new();
    push_str(&mut out, a);
    push_str(&mut out, b);
    push_str(&mut out, c);
    from_chars(out.as_slice())
}

fn notes(tool: &str, dir: &str, hint: &str) -> (r: Vec<String>)
    ensures
        views(r@) == seq![kept_note(tool@, dir@), "  -> cd "@ + dir@ + hint@],
{
    let mut a: Vec<char> = Vec::new();
    push_str(&mut a, "  -> ");
    push_str(&mut a, tool);
    push_str(&mut a, " failed. Build dir kept at: ");
    push_str(&mut a, dir);
    let mut r: Vec<String> = Vec::new();
    r.push(from_chars(a.as_slice()));
    r.push(text3("  -> cd ", dir, hint));
    assert(views(r@) =~= seq![kept_note(tool@, dir@), "  -> cd "@ + dir@ + hint@]);
    r
}

fn steps_for(build_type: Option<&str>, dir: &str) -> (r: Vec<BuildStep>)
    ensures
        r@.map_values(|s: BuildStep| s@) == build_steps(
            match build_type {
                Some(t) => Some(t@),
                None => None,
            },
            dir@,
        ),
{
    let mut r: Vec<BuildStep> = Vec::new();
    match build_type {
        None => {
            r.push(
                BuildStep {
                    dir: String::new(),
                    program: String::from_str("make"),
                    args: Vec::new(),
                    announce: String::from_str("  -> running make ..."),
                    failure: String::from_str("make failed"),
                    notes: notes("make", dir, " && make"),
                },
            );
            assert(views(r@[0].args@) =~= Seq::<Seq<char>>::empty());
        },
        Some(t) => {
            if str_eq(t, "cmake") {
                let args = strs(
                    &[
                        "..",
                        "-DCMAKE_BUILD_TYPE=Release",
                        "-DENABLE_VULKAN=OFF",
                        "-DENABLE_WAYLAND=OFF",
                        "-DENABLE_X11=OFF",
                        "-DENABLE_DRM=OFF",
                        "-DENABLE_DDC=OFF",
                        "-DENABLE_RPM=OFF",
                        "-DENABLE_DEB=OFF",
                        "-DENABLE_PACMAN=OFF",
                        "-DENABLE_ZFS=OFF",
                        "-DENABLE_LM_SENSORS=OFF",
                        "-DENABLE_OPENCL=OFF",
                    ],
                );
                assert(views(args@) =~= cmake_args());
                r.push(
                    BuildStep {
                        dir: String::from_str("build_cmake"),
                        program: String::from_str("cmake"),
                        args,
                        announce: String::from_str("  -> running cmake ..."),
                        failure: String::from_str("cmake configuration failed"),
                        notes: notes(
                            "cmake",
                            dir,
                            " && cd build_cmake && cmake .. -DCMAKE_BUILD_TYPE=Release",
                        ),
                    },
                );
                let j = strs(&["-j"]);
                assert(views(j@) =~= seq!["-j"@]);
                r.push(
                    BuildStep {
                        dir: String::from_str("build_cmake"),
                        program: String::from_str("make"),
                        args: j,
                        announce: String::from_str("  -> running make (this may take a while) ..."),
                        failure: String::from_str("make failed"),
                        notes: notes("make", dir, "/build_cmake && make -j"),
                    },
                );
            } else if str_eq(t, "cargo") {
                let a = strs(&["build", "--release"]);
                assert(views(a@) =~= seq!["build"@, "--release"@]);
                r.push(
                    BuildStep {
                        dir: String::new(),
                        program: String::from_str("cargo"),
                        args: a,
                        announce: String::from_str("  -> running cargo build --release ..."),
                        failure: String::from_str("cargo build failed"),
                        notes: notes("cargo build", dir, " && cargo build --release"),
                    },
                );
            }
        },
    }
    assert(r@.map_values(|s: BuildStep| s@) =~= build_steps(
        match build_type {
            Some(t) => Some(t@),
            None => None,
        },
        dir@,
    ));
    r
}

/// The plan for building a package in the clone directory `dir`; `None`
/// when the package names no repository (`no source URL`).
pub fn build_plan(p: &Package, dir: &str) -> (r: Option<BuildPlan>)
    ensures
        match r {
            Some(plan) => build_plan_spec(p@, dir@) == Some(plan@),
            None => build_plan_spec(p@, dir@) is None,
        },
{
    let url = match &p.source_url {
        None => return None,
        Some(u) => u.as_str(),
    };
    let bin = match &p.binary {
        Some(b) => copy_string(b),
        None => copy_string(&p.name),
    };
    let clone_args = strs(&["clone", "--depth", "1", url, "."]);
    assert(views(clone_args@) =~= seq!["clone"@, "--depth"@, "1"@, url@, "."@]);
    let clone = BuildStep {
        dir: String::new(),
        program: String::from_str("git"),
        args: clone_args,
        announce: text3("  -> cloning ", url, " ..."),
        failure: String::from_str("git clone failed"),
        notes: Vec::new(),
    };
    assert(clone@.dir =~= Seq::<char>::empty());
    assert(clone@.notes =~= Seq::<Seq<char>>::empty());
    let bt: Option<&str> = match &p.build_type {
        Some(t) => Some(t.as_str()),
        None => None,
    };
    let steps = steps_for(bt, dir);
    let built: Result<Vec<String>, String> = match bt {
        None => {
            let mut v: Vec<String> = Vec::new();
            v.push(copy_string(&bin));
            assert(views(v@) =~= seq![bin@]);
            Ok(v)
        },
        Some(t) => if str_eq(t, "cmake") {
            let mut v = strs(&["build_cmake"]);
            assert(views(v@) =~= seq!["build_cmake"@]);
            let ghost before = views(v@);
            v.push(copy_string(&bin));
            assert(views(v@) =~= before.push(bin@));
            assert(views(v@) =~= seq!["build_cmake"@, bin@]);
            Ok(v)
        } else if str_eq(t, "cargo") {
            let mut v = strs(&["target", "release"]);
            assert(views(v@) =~= seq!["target"@, "release"@]);
            let ghost before = views(v@);
            v.push(copy_string(&bin));
            assert(views(v@) =~= before.push(bin@));
            assert(views(v@) =~= seq!["target"@, "release"@, bin@]);
            Ok(v)
        } else {
            Err(text2("unsupported build type: ", t))
        },
    };
    Some(BuildPlan { bin_name: bin, clone, steps, built })
}

/// The compiler and its arguments that turn `src` into the binary `out`.
pub open spec fn compile_command_spec(c: Compiler, out: Seq<char>, src: Seq<char>) -> (
    Seq<char>,
    Seq<Seq<char>>,
) {
    match c {
        Compiler::Gcc => ("gcc"@, seq!["-O2"@, "-Wall"@, "-Wextra"@, "-o"@, out, src]),
        Compiler::Rustc => ("rustc"@, seq!["-O"@, "-o"@, out, src]),
    }
}

pub fn compile_command(c: &Compiler, out: &str, src: &str) -> (r: (String, Vec<String>))
    ensures
        (r.0@, views(r.1@)) == compile_command_spec(*c, out@, src@),
{
    match c {
        Compiler::Gcc => {
            let a = strs(&["-O2", "-Wall", "-Wextra", "-o", out, src]);
            assert(views(a@) =~= seq!["-O2"@, "-Wall"@, "-Wextra"@, "-o"@, out@, src@]);
            (String::from_str("gcc"), a)
        },
        Compiler::Rustc => {
            let a = strs(&["-O", "-o", out, src]);
            assert(views(a@) =~= seq!["-O"@, "-o"@, out@, src@]);
            (String::from_str("rustc"), a)
        },
    }
}

/// The command lines a built package runs once enabled: the lines of its
/// `.sh` files, in order, trimmed, without blank lines and comments. Other
/// packages run none.
pub open spec fn setup_lines_of(files: Seq<FileV>) -> Seq<Seq<char>>
    decreases files.len(),
{
    if files.len() == 0 {
        Seq::empty()
    } else {
        let f = files.last();
        setup_lines_of(files.drop_last()) + if ends_with(f.path, ".sh"@) {
            script_lines(f.content)
        } else {
            Seq::empty()
        }
    }
}

pub open spec fn setup_lines_spec(p: PackageV) -> Seq<Seq<char>> {
    if is_type(p, "build"@) {
        setup_lines_of(p.files)
    } else {
        Seq::empty()
    }
}

pub fn setup_lines(p: &Package) -> (r: Vec<String>)
    ensures
        views(r@) == setup_lines_spec(p@),
{
    let mut out: Vec<String> = Vec::new();
    let is_build = match &p.pkg_type {
        Some(t) => str_eq(t.as_str(), "build"),
        None => false,
    };
    if !is_build {
        assert(views(out@) =~= Seq::<Seq<char>>::empty());
        return out;
    }
    let ghost fs = p@.files;
    let sh = to_chars(".sh");
    let mut i: usize = 0;
    assert(fs.take(0) =~= Seq::<FileV>::empty());
    assert(views(out@) =~= Seq::<Seq<char>>::empty());
    while i < p.files.len()
        invariant
            i <= p.files@.len(),
            fs == p@.files,
            sh@ == ".sh"@,
            views(out@) == setup_lines_of(fs.take(i as int)),
        decreases p.files.len() - i,
    {
        assert(fs.take(i + 1).drop_last() =~= fs.take(i as int));
        assert(fs.take(i + 1).last() == fs[i as int]);
        let path = to_chars(p.files[i].path.as_str());
        let ghost before = views(out@);
        if has_suffix(path.as_slice(), sh.as_slice()) {
            let ls = source_lines(p.files[i].content.as_str());
            let mut k: usize = 0;
            while k < ls.len()
                invariant
                    k <= ls@.len(),
                    views(out@) == before + views(ls@).take(k as int),
                decreases ls.len() - k,
            {
                let ghost b2 = views(out@);
                out.push(copy_string(&ls[k]));
                assert(views(out@) =~= b2.push(ls@[k as int]@));
                assert(views(ls@).take(k + 1) =~= views(ls@).take(k as int).push(ls@[k as int]@));
                k = k + 1;
            }
            assert(views(ls@).take(k as int) =~= views(ls@));
        } else {
            assert(views(out@) =~= before + Seq::<Seq<char>>::empty());
        }
        i = i + 1;
    }
    assert(fs.take(i as int) =~= fs);
    out
}

/// The package that gets a `fastfetch` configuration after it is built.
pub fn needs_fastfetch_config(name: &str) -> (r: bool)
    ensures
        r == (name@ == "sysfetch"@),
{
    str_eq(name, "sysfetch")
}

// ---------------------------------------------------------------------------
// Installing
// ---------------------------------------------------------------------------

/// What installing a package involves besides writing its files.
#[derive(PartialEq, Eq, Structural, Clone, Copy)]
pub enum PkgKind {
    /// Its source is compiled.
    Compile,
    /// Its repository is cloned and built.
    Build,
    /// Nothing more.
    Plain,
}

pub open spec fn kind_of(p: PackageV) -> PkgKind {
    if is_type(p, "compile"@) {
        PkgKind::Compile
    } else if is_type(p, "build"@) {
        PkgKind::Build
    } else {
        PkgKind::Plain
    }
}

/// What a package needs besides its files: compiling, building, or
/// nothing.
pub fn package_kind(p: &Package) -> (r: PkgKind)
    ensures
        r == kind_of(p@),
{
    match &p.pkg_type {
        Some(t) => if str_eq(t.as_str(), "compile") {
            PkgKind::Compile
        } else if str_eq(t.as_str(), "build") {
            PkgKind::Build
        } else {
            PkgKind::Plain
        },
        None => PkgKind::Plain,
    }
}

/// The line that ends `pkg update`.
pub open spec fn update_summary_spec(updated: nat) -> Seq<char> {
    if updated == 0 {
        "All packages up to date."@
    } else {
        "Updated "@ + decimal(updated) + " package(s)."@
    }
}

pub fn update_summary(updated: u64) -> (r: String)
    ensures
        r@ == update_summary_spec(updated as nat),
{
    if updated == 0 {
        return String::from_str("All packages up to date.");
    }
    let mut out: Vec<char> = Vec::new();
    push_str(&mut out, "Updated ");
    push_decimal(&mut out, updated);
    push_str(&mut out, " package(s).");
    from_chars(out.as_slice())
}

/// The alert printed for a dangerous package.
pub open spec fn alert_lines(name: Seq<char>, findings: Seq<Seq<char>>) -> Seq<Seq<char>> {
    seq![
        "\npkg: SECURITY ALERT: malicious code detected in '"@ + name + "'!"@,
        "      This package contains potentially dangerous code:"@,
    ] + findings + seq![Seq::empty(), "      The package has been REMOVED and BLOCKED for your safety."@]
}

/// The verdict on a fetched package: rejected with an alert when the scan
/// of its content finds anything, else accepted, with its kind.
pub enum InstallPlan {
    Rejected(Vec<String>),
    Accepted(PkgKind),
}

pub enum InstallPlanV {
    Rejected(Seq<Seq<char>>),
    Accepted(PkgKind),
}

impl View for InstallPlan {
    type V = InstallPlanV;

    open spec fn view(&self) -> InstallPlanV {
        match self {
            InstallPlan::Rejected(l) => InstallPlanV::Rejected(views(l@)),
            InstallPlan::Accepted(k) => InstallPlanV::Accepted(*k),
        }
    }
}

pub open spec fn install_plan_spec(name: Seq<char>, p: PackageV) -> InstallPlanV {
    let f = scan_spec(install_content_spec(p));
    if f.len() > 0 {
        InstallPlanV::Rejected(alert_lines(name, f))
    } else {
        InstallPlanV::Accepted(kind_of(p))
    }
}

pub fn install_plan(name: &str, p: &Package) -> (r: InstallPlan)
    ensures
        r@ == install_plan_spec(name@, p@),
{
    let content = install_content(p);
    let findings = scan_malicious(content.as_str(), name);
    if findings.len() > 0 {
        let mut lines: Vec<String> = Vec::new();
        lines.push(text3("\npkg: SECURITY ALERT: malicious code detected in '", name, "'!"));
        lines.push(String::from_str("      This package contains potentially dangerous code:"));
        let ghost head = views(lines@);
        let mut i: usize = 0;
        while i < findings.len()
            invariant
                i <= findings@.len(),
                views(lines@) == head + views(findings@).take(i as int),
            decreases findings.len() - i,
        {
            let ghost before = views(lines@);
            lines.push(copy_string(&findings[i]));
            assert(views(lines@) =~= before.push(findings@[i as int]@));
            assert(views(findings@).take(i + 1) =~= views(findings@).take(i as int).push(
                findings@[i as int]@,
            ));
            i = i + 1;
        }
        assert(views(findings@).take(i as int) =~= views(findings@));
        let ghost mid = views(lines@);
        lines.push(String::new());
        lines.push(String::from_str("      The package has been REMOVED and BLOCKED for your safety."));
        assert(views(lines@) =~= mid + seq![
            Seq::<char>::empty(),
            "      The package has been REMOVED and BLOCKED for your safety."@,
        ]);
        assert(views(lines@) =~= alert_lines(name@, views(findings@)));
        return InstallPlan::Rejected(lines);
    }
    InstallPlan::Accepted(package_kind(p))
}

/// A fetched package is rejected exactly when some dangerous pattern
/// occurs, whatever the case, in its files or its source.
pub proof fn lemma_install_rejects_exactly(name: Seq<char>, p: PackageV)
    ensures
        (install_plan_spec(name, p) is Rejected) <==> exists|i: int|
            0 <= i < malicious_checks().len() && contains(
                lowercase(install_content_spec(p)),
                (#[trigger] malicious_checks()[i]).0,
            ),
{
    lemma_scan_rejects_exactly(install_content_spec(p));
}

} // verus!
