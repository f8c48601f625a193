//! The package manager's decisions and texts: the package model, the
//! security scan, the script that enables a package, registry search and
//! listings, and the plans for compiling and building.
use vstd::prelude::*;
use crate::order::{chars_lt, lemma_lt_asym, lemma_lt_irrefl, lemma_lt_total, lemma_lt_trans,
    seq_le, seq_lt, sort_strings, sorted, views};
use crate::text::{
    split_char,
    contains, copy_string, ends_with, find_sub, from_chars, has_suffix, join, join_strings,
    lines, lowercase, push_chars, push_str, split_lines, str_eq, to_chars, to_lowercase,
};
use crate::num::{decimal, push_decimal};

verus! {

// ---------------------------------------------------------------------------
// Package model
// ---------------------------------------------------------------------------

pub struct PackageFile {
    pub path: String,
    pub content: String,
}

/// A package as the registry describes it. `env` holds the variables it
/// sets, in the order given.
pub struct Package {
    pub name: String,
    pub version: String,
    pub description: String,
    pub author: Option<String>,
    pub pkg_type: Option<String>,
    pub language: Option<String>,
    pub binary: Option<String>,
    pub depends: Vec<String>,
    pub files: Vec<PackageFile>,
    pub source: Option<String>,
    pub source_url: Option<String>,
    pub build_type: Option<String>,
    pub env: Vec<(String, String)>,
}

/// No variable is set twice.
pub open spec fn env_keys_unique(env: Seq<(Seq<char>, Seq<char>)>) -> bool {
    forall|i: int, j: int| 0 <= i < j < env.len() ==> (#[trigger] env[i]).0 != (#[trigger] env[j]).0
}

/// A package's summary in the registry listing.
pub struct RegistryEntry {
    pub name: String,
    pub version: String,
    pub description: String,
    pub author: Option<String>,
    pub pkg_type: Option<String>,
    pub language: Option<String>,
    pub depends: Vec<String>,
    pub source_url: Option<String>,
    pub build_type: Option<String>,
}

pub open spec fn opt_view(o: Option<String>) -> Option<Seq<char>> {
    match o {
        Some(s) => Some(s@),
        None => None,
    }
}

pub struct FileV {
    pub path: Seq<char>,
    pub content: Seq<char>,
}

pub struct PackageV {
    pub name: Seq<char>,
    pub version: Seq<char>,
    pub description: Seq<char>,
    pub author: Option<Seq<char>>,
    pub pkg_type: Option<Seq<char>>,
    pub language: Option<Seq<char>>,
    pub binary: Option<Seq<char>>,
    pub depends: Seq<Seq<char>>,
    pub files: Seq<FileV>,
    pub source: Option<Seq<char>>,
    pub source_url: Option<Seq<char>>,
    pub build_type: Option<Seq<char>>,
    pub env: Seq<(Seq<char>, Seq<char>)>,
}

pub struct EntryV {
    pub name: Seq<char>,
    pub version: Seq<char>,
    pub description: Seq<char>,
    pub author: Option<Seq<char>>,
    pub pkg_type: Option<Seq<char>>,
    pub language: Option<Seq<char>>,
    pub depends: Seq<Seq<char>>,
    pub source_url: Option<Seq<char>>,
    pub build_type: Option<Seq<char>>,
}

impl View for PackageFile {
    type V = FileV;

    open spec fn view(&self) -> FileV {
        FileV { path: self.path@, content: self.content@ }
    }
}

impl View for Package {
    type V = PackageV;

    open spec fn view(&self) -> PackageV {
        PackageV {
            name: self.name@,
            version: self.version@,
            description: self.description@,
            author: opt_view(self.author),
            pkg_type: opt_view(self.pkg_type),
            language: opt_view(self.language),
            binary: opt_view(self.binary),
            depends: views(self.depends@),
            files: self.files@.map_values(|f: PackageFile| f@),
            source: opt_view(self.source),
            source_url: opt_view(self.source_url),
            build_type: opt_view(self.build_type),
            env: self.env@.map_values(|p: (String, String)| (p.0@, p.1@)),
        }
    }
}

impl Package {
    /// A package as the registry describes it: each variable is set once.
    pub open spec fn wf(&self) -> bool {
        env_keys_unique(self@.env)
    }

    /// Tells whether the package is well formed.
    pub fn is_wf(&self) -> (r: bool)
        ensures
            r == self.wf(),
    {
        let ghost e = self@.env;
        let n = self.env.len();
        let mut j: usize = 0;
        while j < n
            invariant
                n == e.len(),
                e == self@.env,
                j <= n,
                forall|a: int, b: int| 0 <= a < b < j ==> (#[trigger] e[a]).0 != (#[trigger] e[b]).0,
            decreases n - j,
        {
            let mut i: usize = 0;
            while i < j
                invariant
                    n == e.len(),
                    e == self@.env,
                    i <= j < n,
                    forall|a: int| 0 <= a < i ==> (#[trigger] e[a]).0 != e[j as int].0,
                decreases j - i,
            {
                assert(e[i as int].0 == self.env@[i as int].0@);
                assert(e[j as int].0 == self.env@[j as int].0@);
                if str_eq(self.env[i].0.as_str(), self.env[j].0.as_str()) {
                    return false;
                }
                i = i + 1;
            }
            j = j + 1;
        }
        true
    }
}

impl View for RegistryEntry {
    type V = EntryV;

    open spec fn view(&self) -> EntryV {
        EntryV {
            name: self.name@,
            version: self.version@,
            description: self.description@,
            author: opt_view(self.author),
            pkg_type: opt_view(self.pkg_type),
            language: opt_view(self.language),
            depends: views(self.depends@),
            source_url: opt_view(self.source_url),
            build_type: opt_view(self.build_type),
        }
    }
}

fn copy_opt(o: &Option<String>) -> (r: Option<String>)
    ensures
        opt_view(r) == opt_view(*o),
{
    match o {
        Some(s) => Some(copy_string(s)),
        None => None,
    }
}

fn copy_strings(v: &Vec<String>) -> (r: Vec<String>)
    ensures
        views(r@) == views(v@),
{
    let mut r: Vec<String> = Vec::new();
    let mut i: usize = 0;
    while i < v.len()
        invariant
            i <= v@.len(),
            r@.len() == i,
            forall|k: int| 0 <= k < i ==> (#[trigger] r@[k])@ == v@[k]@,
        decreases v.len() - i,
    {
        r.push(copy_string(&v[i]));
        i = i + 1;
    }
    assert(views(r@) =~= views(v@));
    r
}

fn opt_is(o: &Option<String>, lit: &str) -> (r: bool)
    ensures
        r == (opt_view(*o) == Some(lit@)),
{
    match o {
        Some(s) => str_eq(s.as_str(), lit),
        None => false,
    }
}

// ---------------------------------------------------------------------------
// The shell guard and the subcommands
// ---------------------------------------------------------------------------

/// `pkg` only runs where `$UPD_SHELL` is `updsh`.
pub fn guard_shell(upd_shell: Option<&str>) -> (r: Result<(), String>)
    ensures
        r is Ok <==> (upd_shell matches Some(v) && v@ == "updsh"@),
        r matches Err(m) ==> m@ == "pkg: this command only works inside updSH shell"@,
{
    match upd_shell {
        Some(v) => if str_eq(v, "updsh") {
            return Ok(());
        },
        None => {},
    }
    Err(String::from_str("pkg: this command only works inside updSH shell"))
}

pub enum PkgCommand {
    Install(Vec<String>),
    Remove(Vec<String>),
    List,
    Search(Vec<String>),
    Info(Vec<String>),
    Update,
    Help,
}

pub enum PkgCommandV {
    Install(Seq<Seq<char>>),
    Remove(Seq<Seq<char>>),
    List,
    Search(Seq<Seq<char>>),
    Info(Seq<Seq<char>>),
    Update,
    Help,
}

impl View for PkgCommand {
    type V = PkgCommandV;

    open spec fn view(&self) -> PkgCommandV {
        match self {
            PkgCommand::Install(a) => PkgCommandV::Install(views(a@)),
            PkgCommand::Remove(a) => PkgCommandV::Remove(views(a@)),
            PkgCommand::List => PkgCommandV::List,
            PkgCommand::Search(a) => PkgCommandV::Search(views(a@)),
            PkgCommand::Info(a) => PkgCommandV::Info(views(a@)),
            PkgCommand::Update => PkgCommandV::Update,
            PkgCommand::Help => PkgCommandV::Help,
        }
    }
}

/// The subcommand named by the first argument (with its short forms), and
/// the arguments after it; anything else is `help`.
pub open spec fn pkg_command_spec(args: Seq<Seq<char>>) -> PkgCommandV {
    if args.len() == 0 {
        PkgCommandV::Help
    } else {
        let s = args[0];
        let rest = args.drop_first();
        if s == "install"@ || s == "i"@ {
            PkgCommandV::Install(rest)
        } else if s == "remove"@ || s == "r"@ || s == "uninstall"@ {
            PkgCommandV::Remove(rest)
        } else if s == "list"@ || s == "ls"@ {
            PkgCommandV::List
        } else if s == "search"@ || s == "s"@ {
            PkgCommandV::Search(rest)
        } else if s == "info"@ || s == "show"@ {
            PkgCommandV::Info(rest)
        } else if s == "update"@ || s == "up"@ {
            PkgCommandV::Update
        } else {
            PkgCommandV::Help
        }
    }
}

/// Each documented subcommand, and each of its short names, picks its
/// command, with the words after it as the command's arguments; `help`,
/// `h` and no word at all give the help.
pub proof fn lemma_pkg_subcommand_names(rest: Seq<Seq<char>>)
    ensures
        pkg_command_spec(seq!["install"@] + rest) == PkgCommandV::Install(rest),
        pkg_command_spec(seq!["i"@] + rest) == PkgCommandV::Install(rest),
        pkg_command_spec(seq!["remove"@] + rest) == PkgCommandV::Remove(rest),
        pkg_command_spec(seq!["r"@] + rest) == PkgCommandV::Remove(rest),
        pkg_command_spec(seq!["uninstall"@] + rest) == PkgCommandV::Remove(rest),
        pkg_command_spec(seq!["list"@] + rest) == PkgCommandV::List,
        pkg_command_spec(seq!["ls"@] + rest) == PkgCommandV::List,
        pkg_command_spec(seq!["search"@] + rest) == PkgCommandV::Search(rest),
        pkg_command_spec(seq!["s"@] + rest) == PkgCommandV::Search(rest),
        pkg_command_spec(seq!["info"@] + rest) == PkgCommandV::Info(rest),
        pkg_command_spec(seq!["show"@] + rest) == PkgCommandV::Info(rest),
        pkg_command_spec(seq!["update"@] + rest) == PkgCommandV::Update,
        pkg_command_spec(seq!["up"@] + rest) == PkgCommandV::Update,
        pkg_command_spec(seq!["help"@] + rest) == PkgCommandV::Help,
        pkg_command_spec(seq!["h"@] + rest) == PkgCommandV::Help,
        pkg_command_spec(Seq::empty()) == PkgCommandV::Help,
{
    reveal_strlit("install");
    reveal_strlit("i");
    reveal_strlit("remove");
    reveal_strlit("r");
    reveal_strlit("uninstall");
    reveal_strlit("list");
    reveal_strlit("ls");
    reveal_strlit("search");
    reveal_strlit("s");
    reveal_strlit("info");
    reveal_strlit("show");
    reveal_strlit("update");
    reveal_strlit("up");
    reveal_strlit("help");
    reveal_strlit("h");
    assert("i"@.len() != "install"@.len());
    assert("remove"@.len() != "install"@.len());
    assert("remove"@.len() != "i"@.len());
    assert("r"@.len() != "install"@.len());
    assert("r"@[0] != "i"@[0]);
    assert("r"@.len() != "remove"@.len());
    assert("uninstall"@.len() != "install"@.len());
    assert("uninstall"@.len() != "i"@.len());
    assert("uninstall"@.len() != "remove"@.len());
    assert("uninstall"@.len() != "r"@.len());
    assert("list"@.len() != "install"@.len());
    assert("list"@.len() != "i"@.len());
    assert("list"@.len() != "remove"@.len());
    assert("list"@.len() != "r"@.len());
    assert("list"@.len() != "uninstall"@.len());
    assert("ls"@.len() != "install"@.len());
    assert("ls"@.len() != "i"@.len());
    assert("ls"@.len() != "remove"@.len());
    assert("ls"@.len() != "r"@.len());
    assert("ls"@.len() != "uninstall"@.len());
    assert("ls"@.len() != "list"@.len());
    assert("search"@.len() != "install"@.len());
    assert("search"@.len() != "i"@.len());
    assert("search"@[0] != "remove"@[0]);
    assert("search"@.len() != "r"@.len());
    assert("search"@.len() != "uninstall"@.len());
    assert("search"@.len() != "list"@.len());
    assert("search"@.len() != "ls"@.len());
    assert("s"@.len() != "install"@.len());
    assert("s"@[0] != "i"@[0]);
    assert("s"@.len() != "remove"@.len());
    assert("s"@[0] != "r"@[0]);
    assert("s"@.len() != "uninstall"@.len());
    assert("s"@.len() != "list"@.len());
    assert("s"@.len() != "ls"@.len());
    assert("s"@.len() != "search"@.len());
    assert("info"@.len() != "install"@.len());
    assert("info"@.len() != "i"@.len());
    assert("info"@.len() != "remove"@.len());
    assert("info"@.len() != "r"@.len());
    assert("info"@.len() != "uninstall"@.len());
    assert("info"@[0] != "list"@[0]);
    assert("info"@.len() != "ls"@.len());
    assert("info"@.len() != "search"@.len());
    assert("info"@.len() != "s"@.len());
    assert("show"@.len() != "install"@.len());
    assert("show"@.len() != "i"@.len());
    assert("show"@.len() != "remove"@.len());
    assert("show"@.len() != "r"@.len());
    assert("show"@.len() != "uninstall"@.len());
    assert("show"@[0] != "list"@[0]);
    assert("show"@.len() != "ls"@.len());
    assert("show"@.len() != "search"@.len());
    assert("show"@.len() != "s"@.len());
    assert("show"@[0] != "info"@[0]);
    assert("update"@.len() != "install"@.len());
    assert("update"@.len() != "i"@.len());
    assert("update"@[0] != "remove"@[0]);
    assert("update"@.len() != "r"@.len());
    assert("update"@.len() != "uninstall"@.len());
    assert("update"@.len() != "list"@.len());
    assert("update"@.len() != "ls"@.len());
    assert("update"@[0] != "search"@[0]);
    assert("update"@.len() != "s"@.len());
    assert("update"@.len() != "info"@.len());
    assert("update"@.len() != "show"@.len());
    assert("up"@.len() != "install"@.len());
    assert("up"@.len() != "i"@.len());
    assert("up"@.len() != "remove"@.len());
    assert("up"@.len() != "r"@.len());
    assert("up"@.len() != "uninstall"@.len());
    assert("up"@.len() != "list"@.len());
    assert("up"@[0] != "ls"@[0]);
    assert("up"@.len() != "search"@.len());
    assert("up"@.len() != "s"@.len());
    assert("up"@.len() != "info"@.len());
    assert("up"@.len() != "show"@.len());
    assert("up"@.len() != "update"@.len());
    assert("help"@.len() != "install"@.len());
    assert("help"@.len() != "i"@.len());
    assert("help"@.len() != "remove"@.len());
    assert("help"@.len() != "r"@.len());
    assert("help"@.len() != "uninstall"@.len());
    assert("help"@[0] != "list"@[0]);
    assert("help"@.len() != "ls"@.len());
    assert("help"@.len() != "search"@.len());
    assert("help"@.len() != "s"@.len());
    assert("help"@[0] != "info"@[0]);
    assert("help"@[0] != "show"@[0]);
    assert("help"@.len() != "update"@.len());
    assert("help"@.len() != "up"@.len());
    assert("h"@.len() != "install"@.len());
    assert("h"@[0] != "i"@[0]);
    assert("h"@.len() != "remove"@.len());
    assert("h"@[0] != "r"@[0]);
    assert("h"@.len() != "uninstall"@.len());
    assert("h"@.len() != "list"@.len());
    assert("h"@.len() != "ls"@.len());
    assert("h"@.len() != "search"@.len());
    assert("h"@[0] != "s"@[0]);
    assert("h"@.len() != "info"@.len());
    assert("h"@.len() != "show"@.len());
    assert("h"@.len() != "update"@.len());
    assert("h"@.len() != "up"@.len());
    assert((seq!["install"@] + rest).drop_first() =~= rest);
    assert((seq!["i"@] + rest).drop_first() =~= rest);
    assert((seq!["remove"@] + rest).drop_first() =~= rest);
    assert((seq!["r"@] + rest).drop_first() =~= rest);
    assert((seq!["uninstall"@] + rest).drop_first() =~= rest);
    assert((seq!["list"@] + rest).drop_first() =~= rest);
    assert((seq!["ls"@] + rest).drop_first() =~= rest);
    assert((seq!["search"@] + rest).drop_first() =~= rest);
    assert((seq!["s"@] + rest).drop_first() =~= rest);
    assert((seq!["info"@] + rest).drop_first() =~= rest);
    assert((seq!["show"@] + rest).drop_first() =~= rest);
    assert((seq!["update"@] + rest).drop_first() =~= rest);
    assert((seq!["up"@] + rest).drop_first() =~= rest);
    assert((seq!["help"@] + rest).drop_first() =~= rest);
    assert((seq!["h"@] + rest).drop_first() =~= rest);
}

fn tail(args: &[String]) -> (r: Vec<String>)
    requires
        args@.len() > 0,
    ensures
        views(r@) == views(args@).drop_first(),
{
    let mut r: Vec<String> = Vec::new();
    let mut i: usize = 1;
    while i < args.len()
        invariant
            1 <= i <= args@.len(),
            r@.len() == i - 1,
            forall|k: int| 0 <= k < i - 1 ==> (#[trigger] r@[k])@ == args@[k + 1]@,
        decreases args.len() - i,
    {
        r.push(copy_string(&args[i]));
        i = i + 1;
    }
    assert(views(r@) =~= views(args@).drop_first());
    r
}

/// The error that `pkg install` and `pkg remove` give without a package
/// name: the two lines for standard error, or `None` when a name is given.
pub open spec fn missing_name_spec(sub: Seq<char>, args: Seq<Seq<char>>) -> Option<Seq<Seq<char>>> {
    if args.len() == 0 {
        Some(seq!["pkg "@ + sub + ": missing package name"@, "usage: pkg "@ + sub + " <package>"@])
    } else {
        None
    }
}

pub fn missing_name(sub: &str, args: &[String]) -> (r: Option<Vec<String>>)
    ensures
        match r {
            Some(v) => missing_name_spec(sub@, views(args@)) == Some(views(v@)),
            None => missing_name_spec(sub@, views(args@)) is None,
        },
{
    if args.len() > 0 {
        return None;
    }
    let mut a: Vec<char> = Vec::new();
    push_str(&mut a, "pkg ");
    push_str(&mut a, sub);
    push_str(&mut a, ": missing package name");
    let mut b: Vec<char> = Vec::new();
    push_str(&mut b, "usage: pkg ");
    push_str(&mut b, sub);
    push_str(&mut b, " <package>");
    let mut v: Vec<String> = Vec::new();
    v.push(from_chars(a.as_slice()));
    v.push(from_chars(b.as_slice()));
    assert(a@ =~= "pkg "@ + sub@ + ": missing package name"@);
    assert(b@ =~= "usage: pkg "@ + sub@ + " <package>"@);
    assert(views(v@) =~= seq!["pkg "@ + sub@ + ": missing package name"@, "usage: pkg "@ + sub@ + " <package>"@]);
    Some(v)
}

pub fn pkg_command(args: &[String]) -> (r: PkgCommand)
    ensures
        r@ == pkg_command_spec(views(args@)),
{
    if args.len() == 0 {
        return PkgCommand::Help;
    }
    let s = args[0].as_str();
    if str_eq(s, "install") || str_eq(s, "i") {
        PkgCommand::Install(tail(args))
    } else if str_eq(s, "remove") || str_eq(s, "r") || str_eq(s, "uninstall") {
        PkgCommand::Remove(tail(args))
    } else if str_eq(s, "list") || str_eq(s, "ls") {
        PkgCommand::List
    } else if str_eq(s, "search") || str_eq(s, "s") {
        PkgCommand::Search(tail(args))
    } else if str_eq(s, "info") || str_eq(s, "show") {
        PkgCommand::Info(tail(args))
    } else if str_eq(s, "update") || str_eq(s, "up") {
        PkgCommand::Update
    } else {
        PkgCommand::Help
    }
}

// ---------------------------------------------------------------------------
// Security scan
// ---------------------------------------------------------------------------

/// The patterns that mark a package as dangerous, with what each does.
pub open spec fn malicious_checks() -> Seq<(Seq<char>, Seq<char>)> {
    seq![
        ("rm -rf /"@, "wipes root filesystem"@),
        ("rm -rf /*"@, "wipes root filesystem"@),
        ("mkfs."@, "formats filesystem"@),
        ("dd if=/dev/zero of="@, "writes to block device"@),
        ("dd if=/dev/random of="@, "writes to block device"@),
        (":(){"@, "fork bomb"@),
        (":|:&"@, "fork bomb"@),
        ("| bash"@, "remote pipe to shell"@),
        ("| sh"@, "remote pipe to shell"@),
        ("| zsh"@, "remote pipe to shell"@),
        ("| dash"@, "remote pipe to shell"@),
        ("chmod 777 /"@, "opens permissions on root"@),
        ("sudo rm -rf"@, "sudo rm -rf"@),
        (">/dev/sda"@, "writes to disk device"@),
        ("python -c"@, "python inline execution"@),
        ("python3 -c"@, "python inline execution"@),
        ("eval $(curl"@, "eval curl output"@),
        ("eval $(wget"@, "eval wget output"@),
    ]
}

fn malicious_checks_exec() -> (r: Vec<(&'static str, &'static str)>)
    ensures
        r@.map_values(|p: (&str, &str)| (p.0@, p.1@)) == malicious_checks(),
{
    let r = vec![
        ("rm -rf /", "wipes root filesystem"),
        ("rm -rf /*", "wipes root filesystem"),
        ("mkfs.", "formats filesystem"),
        ("dd if=/dev/zero of=", "writes to block device"),
        ("dd if=/dev/random of=", "writes to block device"),
        (":(){", "fork bomb"),
        (":|:&", "fork bomb"),
        ("| bash", "remote pipe to shell"),
        ("| sh", "remote pipe to shell"),
        ("| zsh", "remote pipe to shell"),
        ("| dash", "remote pipe to shell"),
        ("chmod 777 /", "opens permissions on root"),
        ("sudo rm -rf", "sudo rm -rf"),
        (">/dev/sda", "writes to disk device"),
        ("python -c", "python inline execution"),
        ("python3 -c", "python inline execution"),
        ("eval $(curl", "eval curl output"),
        ("eval $(wget", "eval wget output"),
    ];
    assert(r@.map_values(|p: (&str, &str)| (p.0@, p.1@)) =~= malicious_checks());
    r
}

/// `  contains 'PATTERN' (WHAT)`.
pub open spec fn finding_line(pat: Seq<char>, desc: Seq<char>) -> Seq<char> {
    "  contains '"@ + pat + "' ("@ + desc + ")"@
}

/// A finding for each listed pattern that occurs in `lower`, in list order.
pub open spec fn findings_of(lower: Seq<char>, checks: Seq<(Seq<char>, Seq<char>)>) -> Seq<
    Seq<char>,
>
    decreases checks.len(),
{
    if checks.len() == 0 {
        Seq::empty()
    } else {
        let before = findings_of(lower, checks.drop_last());
        if contains(lower, checks.last().0) {
            before.push(finding_line(checks.last().0, checks.last().1))
        } else {
            before
        }
    }
}

/// The findings for a text, matched without regard to case.
pub open spec fn scan_spec(content: Seq<char>) -> Seq<Seq<char>> {
    findings_of(lowercase(content), malicious_checks())
}

pub fn scan_malicious(content: &str, _name: &str) -> (r: Vec<String>)
    ensures
        views(r@) == scan_spec(content@),
{
    let checks = malicious_checks_exec();
    let ghost cv = checks@.map_values(|p: (&str, &str)| (p.0@, p.1@));
    let lower = to_lowercase(content);
    let lv = to_chars(lower.as_str());
    let mut findings: Vec<String> = Vec::new();
    let mut i: usize = 0;
    assert(cv.take(0) =~= Seq::<(Seq<char>, Seq<char>)>::empty());
    assert(views(findings@) =~= Seq::<Seq<char>>::empty());
    while i < checks.len()
        invariant
            i <= checks@.len(),
            cv == checks@.map_values(|p: (&str, &str)| (p.0@, p.1@)),
            lv@ == lowercase(content@),
            views(findings@) == findings_of(lv@, cv.take(i as int)),
        decreases checks.len() - i,
    {
        assert(cv.take(i + 1).drop_last() =~= cv.take(i as int));
        assert(cv.take(i + 1).last() == (checks@[i as int].0@, checks@[i as int].1@));
        let (pat, desc) = checks[i];
        let pv = to_chars(pat);
        if find_sub(lv.as_slice(), pv.as_slice()) {
            let mut line: Vec<char> = Vec::new();
            push_str(&mut line, "  contains '");
            push_str(&mut line, pat);
            push_str(&mut line, "' (");
            push_str(&mut line, desc);
            push_str(&mut line, ")");
            let ghost before = views(findings@);
            findings.push(from_chars(line.as_slice()));
            assert(views(findings@) =~= before.push(finding_line(pat@, desc@)));
        }
        i = i + 1;
    }
    assert(cv.take(i as int) =~= cv);
    findings
}

/// Everything in a package that is scanned: file contents, then the source,
/// joined by newlines.
pub open spec fn install_content_spec(p: PackageV) -> Seq<char> {
    let parts = Seq::new(p.files.len(), |i: int| p.files[i].content) + match p.source {
        Some(s) => seq![s],
        None => Seq::empty(),
    };
    join(parts, "\n"@)
}

pub fn install_content(p: &Package) -> (r: String)
    ensures
        r@ == install_content_spec(p@),
{
    let mut parts: Vec<String> = Vec::new();
    let mut i: usize = 0;
    while i < p.files.len()
        invariant
            i <= p.files@.len(),
            parts@.len() == i,
            forall|k: int| 0 <= k < i ==> (#[trigger] parts@[k])@ == p.files@[k].content@,
        decreases p.files.len() - i,
    {
        parts.push(copy_string(&p.files[i].content));
        i = i + 1;
    }
    match &p.source {
        Some(s) => parts.push(copy_string(s)),
        None => {},
    }
    let ghost pv = p@;
    assert(views(parts@) =~= Seq::new(pv.files.len(), |i: int| pv.files[i].content) + match pv.source {
        Some(s) => seq![s],
        None => Seq::<Seq<char>>::empty(),
    });
    join_strings(parts.as_slice(), "\n")
}

// ---------------------------------------------------------------------------
// The script that enables a package
// ---------------------------------------------------------------------------

pub open spec fn is_type(p: PackageV, t: Seq<char>) -> bool {
    p.pkg_type == Some(t)
}

pub open spec fn env_lines(env: Seq<(Seq<char>, Seq<char>)>) -> Seq<char>
    decreases env.len(),
{
    if env.len() == 0 {
        Seq::empty()
    } else {
        env_lines(env.drop_last()) + "export "@ + env.last().0 + "="@ + env.last().1 + "\n"@
    }
}

pub open spec fn file_block(p: PackageV, f: FileV) -> Seq<char> {
    if is_type(p, "build"@) && !ends_with(f.path, ".sh"@) {
        "# installed: "@ + f.path + "\n"@
    } else if is_type(p, "build"@) && ends_with(f.path, ".sh"@) {
        "# post-install: "@ + f.path + "\n"@
    } else {
        "# source: "@ + f.path + "\n"@ + f.content + seq!['\n']
    }
}

pub open spec fn file_blocks(p: PackageV, files: Seq<FileV>) -> Seq<char>
    decreases files.len(),
{
    if files.len() == 0 {
        Seq::empty()
    } else {
        file_blocks(p, files.drop_last()) + file_block(p, files.last())
    }
}

/// The script written to the `enabled` directory: a header, the package's
/// variables, the binary directory on `PATH` for compiled and built
/// packages, and a block for each file. `bin_parent` is the directory that
/// holds the package's binary.
pub open spec fn enable_script_spec(p: PackageV, bin_parent: Seq<char>) -> Seq<char> {
    let header = "# updSH package: "@ + p.name + " v"@ + p.version + "\n"@
        + "# installed by updSH package manager\n\n"@;
    let path_line = if (is_type(p, "compile"@) || is_type(p, "build"@)) && p.binary is Some {
        "export PATH=\"$PATH:"@ + bin_parent + "\"\n"@
    } else {
        Seq::empty()
    };
    header + env_lines(p.env) + path_line + file_blocks(p, p.files)
}

pub fn enable_script(p: &Package, bin_parent: &str) -> (r: String)
    requires
        p.wf(),
    ensures
        r@ == enable_script_spec(p@, bin_parent@),
{
    let ghost pv = p@;
    let mut out: Vec<char> = Vec::new();
    push_str(&mut out, "# updSH package: ");
    push_str(&mut out, p.name.as_str());
    push_str(&mut out, " v");
    push_str(&mut out, p.version.as_str());
    push_str(&mut out, "\n");
    push_str(&mut out, "# installed by updSH package manager\n\n");
    let ghost head = out@;
    let mut i: usize = 0;
    assert(pv.env.take(0) =~= Seq::<(Seq<char>, Seq<char>)>::empty());
    while i < p.env.len()
        invariant
            i <= p.env@.len(),
            pv == p@,
            out@ == head + env_lines(pv.env.take(i as int)),
        decreases p.env.len() - i,
    {
        assert(pv.env.take(i + 1).drop_last() =~= pv.env.take(i as int));
        assert(pv.env.take(i + 1).last() == (p.env@[i as int].0@, p.env@[i as int].1@));
        push_str(&mut out, "export ");
        push_str(&mut out, p.env[i].0.as_str());
        push_str(&mut out, "=");
        push_str(&mut out, p.env[i].1.as_str());
        push_str(&mut out, "\n");
        i = i + 1;
    }
    assert(pv.env.take(i as int) =~= pv.env);
    let compiled = opt_is(&p.pkg_type, "compile") || opt_is(&p.pkg_type, "build");
    if compiled && p.binary.is_some() {
        push_str(&mut out, "export PATH=\"$PATH:");
        push_str(&mut out, bin_parent);
        push_str(&mut out, "\"\n");
    }
    let ghost mid = out@;
    let is_build = opt_is(&p.pkg_type, "build");
    let mut j: usize = 0;
    assert(pv.files.take(0) =~= Seq::<FileV>::empty());
    while j < p.files.len()
        invariant
            j <= p.files@.len(),
            pv == p@,
            is_build == is_type(pv, "build"@),
            out@ == mid + file_blocks(pv, pv.files.take(j as int)),
        decreases p.files.len() - j,
    {
        assert(pv.files.take(j + 1).drop_last() =~= pv.files.take(j as int));
        assert(pv.files.take(j + 1).last() == p.files@[j as int]@);
        let path = to_chars(p.files[j].path.as_str());
        let sh = to_chars(".sh");
        let is_sh = has_suffix(path.as_slice(), sh.as_slice());
        if is_build && !is_sh {
            push_str(&mut out, "# installed: ");
            push_str(&mut out, p.files[j].path.as_str());
            push_str(&mut out, "\n");
        } else if is_build && is_sh {
            push_str(&mut out, "# post-install: ");
            push_str(&mut out, p.files[j].path.as_str());
            push_str(&mut out, "\n");
        } else {
            push_str(&mut out, "# source: ");
            push_str(&mut out, p.files[j].path.as_str());
            push_str(&mut out, "\n");
            push_str(&mut out, p.files[j].content.as_str());
            out.push('\n');
        }
        j = j + 1;
    }
    assert(pv.files.take(j as int) =~= pv.files);
    assert(out@ =~= enable_script_spec(pv, bin_parent@));
    from_chars(out.as_slice())
}

/// The files that enabling a built package writes into its directory:
/// those that are not `.sh` scripts.
pub open spec fn files_to_write_spec(p: PackageV) -> Seq<int> {
    Seq::new(p.files.len(), |i: int| i).filter(
        |i: int| is_type(p, "build"@) && !ends_with(p.files[i].path, ".sh"@),
    )
}

pub fn files_to_write(p: &Package) -> (r: Vec<usize>)
    ensures
        r@.map_values(|i: usize| i as int) == files_to_write_spec(p@),
{
    let ghost pv = p@;
    let ghost pred = |i: int| is_type(pv, "build"@) && !ends_with(pv.files[i].path, ".sh"@);
    let ghost all = Seq::new(pv.files.len(), |i: int| i);
    let is_build = opt_is(&p.pkg_type, "build");
    let mut r: Vec<usize> = Vec::new();
    let mut j: usize = 0;
    assert(all.take(0).filter(pred) =~= Seq::<int>::empty());
    assert(r@.map_values(|i: usize| i as int) =~= Seq::<int>::empty());
    while j < p.files.len()
        invariant
            j <= p.files@.len(),
            pv == p@,
            all == Seq::new(pv.files.len(), |i: int| i),
            pred == (|i: int| is_type(pv, "build"@) && !ends_with(pv.files[i].path, ".sh"@)),
            is_build == is_type(pv, "build"@),
            r@.map_values(|i: usize| i as int) == all.take(j as int).filter(pred),
        decreases p.files.len() - j,
    {
        assert(all.take(j + 1) =~= all.take(j as int).push(j as int));
        proof {
            all.take(j as int).lemma_filter_push(j as int, pred);
        }
        let path = to_chars(p.files[j].path.as_str());
        let sh = to_chars(".sh");
        if is_build && !has_suffix(path.as_slice(), sh.as_slice()) {
            let ghost before = r@.map_values(|i: usize| i as int);
            r.push(j);
            assert(r@.map_values(|i: usize| i as int) =~= before.push(j as int));
        }
        j = j + 1;
    }
    assert(all.take(j as int) =~= all);
    r
}

// ---------------------------------------------------------------------------
// Registry
// ---------------------------------------------------------------------------

/// The position of the first package with the name.
pub fn find_package(pkgs: &[Package], name: &str) -> (r: Option<usize>)
    ensures
        match r {
            Some(i) => i < pkgs@.len() && pkgs@[i as int]@.name == name@ && forall|k: int|
                0 <= k < i ==> (#[trigger] pkgs@[k])@.name != name@,
            None => forall|k: int| 0 <= k < pkgs@.len() ==> (#[trigger] pkgs@[k])@.name != name@,
        },
{
    let mut i: usize = 0;
    while i < pkgs.len()
        invariant
            i <= pkgs@.len(),
            forall|k: int| 0 <= k < i ==> (#[trigger] pkgs@[k])@.name != name@,
        decreases pkgs.len() - i,
    {
        if str_eq(pkgs[i].name.as_str(), name) {
            return Some(i);
        }
        i = i + 1;
    }
    None
}

pub open spec fn entry_of(p: PackageV) -> EntryV {
    EntryV {
        name: p.name,
        version: p.version,
        description: p.description,
        author: p.author,
        pkg_type: p.pkg_type,
        language: p.language,
        depends: p.depends,
        source_url: p.source_url,
        build_type: p.build_type,
    }
}

/// The registry listing made from the built-in packages.
pub fn registry_from_packages(pkgs: &[Package]) -> (r: Vec<RegistryEntry>)
    ensures
        r@.len() == pkgs@.len(),
        forall|i: int| 0 <= i < r@.len() ==> (#[trigger] r@[i])@ == entry_of(pkgs@[i]@),
{
    let mut r: Vec<RegistryEntry> = Vec::new();
    let mut i: usize = 0;
    while i < pkgs.len()
        invariant
            i <= pkgs@.len(),
            r@.len() == i,
            forall|k: int| 0 <= k < i ==> (#[trigger] r@[k])@ == entry_of(pkgs@[k]@),
        decreases pkgs.len() - i,
    {
        let p = &pkgs[i];
        r.push(
            RegistryEntry {
                name: copy_string(&p.name),
                version: copy_string(&p.version),
                description: copy_string(&p.description),
                author: copy_opt(&p.author),
                pkg_type: copy_opt(&p.pkg_type),
                language: copy_opt(&p.language),
                depends: copy_strings(&p.depends),
                source_url: copy_opt(&p.source_url),
                build_type: copy_opt(&p.build_type),
            },
        );
        i = i + 1;
    }
    r
}

pub fn list_available_names(registry: &[RegistryEntry]) -> (r: Vec<String>)
    ensures
        r@.len() == registry@.len(),
        forall|i: int| 0 <= i < r@.len() ==> (#[trigger] r@[i])@ == registry@[i]@.name,
{
    let mut r: Vec<String> = Vec::new();
    let mut i: usize = 0;
    while i < registry.len()
        invariant
            i <= registry@.len(),
            r@.len() == i,
            forall|k: int| 0 <= k < i ==> (#[trigger] r@[k])@ == registry@[k]@.name,
        decreases registry.len() - i,
    {
        r.push(copy_string(&registry[i].name));
        i = i + 1;
    }
    r
}

/// The names of the directory entries that are directories, sorted.
pub open spec fn dir_names(entries: Seq<(Seq<char>, bool)>) -> Seq<Seq<char>>
    decreases entries.len(),
{
    if entries.len() == 0 {
        Seq::empty()
    } else {
        let before = dir_names(entries.drop_last());
        if entries.last().1 {
            before.push(entries.last().0)
        } else {
            before
        }
    }
}

/// The installed packages: the directories among `entries` (name and
/// whether it is a directory), by ascending name; strictly ascending when
/// no two directories share a name.
pub fn list_installed_names(entries: &[(String, bool)]) -> (r: Vec<String>)
    ensures
        sorted(views(r@)),
        views(r@).to_multiset() == dir_names(
            entries@.map_values(|e: (String, bool)| (e.0@, e.1)),
        ).to_multiset(),
        dir_names(entries@.map_values(|e: (String, bool)| (e.0@, e.1))).no_duplicates() ==> forall|
            i: int,
            j: int,
        | 0 <= i < j < r@.len() ==> seq_lt(#[trigger] views(r@)[i], #[trigger] views(r@)[j]),
{
    let ghost ev = entries@.map_values(|e: (String, bool)| (e.0@, e.1));
    let mut names: Vec<String> = Vec::new();
    let mut i: usize = 0;
    assert(ev.take(0) =~= Seq::<(Seq<char>, bool)>::empty());
    assert(views(names@) =~= Seq::<Seq<char>>::empty());
    while i < entries.len()
        invariant
            i <= entries@.len(),
            ev == entries@.map_values(|e: (String, bool)| (e.0@, e.1)),
            views(names@) == dir_names(ev.take(i as int)),
        decreases entries.len() - i,
    {
        assert(ev.take(i + 1).drop_last() =~= ev.take(i as int));
        assert(ev.take(i + 1).last() == (entries@[i as int].0@, entries@[i as int].1));
        if entries[i].1 {
            let ghost before = views(names@);
            names.push(copy_string(&entries[i].0));
            assert(views(names@) =~= before.push(entries@[i as int].0@));
        }
        i = i + 1;
    }
    assert(ev.take(i as int) =~= ev);
    let r = sort_strings(names);
    proof {
        let dn = dir_names(ev);
        let rv = views(r@);
        if dn.no_duplicates() {
            dn.lemma_multiset_has_no_duplicates();
            rv.lemma_multiset_has_no_duplicates_conv();
            assert forall|i: int, j: int| 0 <= i < j < r@.len() implies seq_lt(
                #[trigger] rv[i],
                #[trigger] rv[j],
            ) by {
                assert(seq_le(rv[i], rv[j]));
                assert(rv[i] != rv[j]);
            }
        }
    }
    r
}

/// Search: entries whose name or description contains the lowercased
/// query, lowercased too (all entries when there is no query).
pub open spec fn search_match(e: EntryV, query: Option<Seq<char>>) -> bool {
    match query {
        Some(q) => contains(lowercase(e.name), lowercase(q)) || contains(
            lowercase(e.description),
            lowercase(q),
        ),
        None => true,
    }
}

/// `(name, position)` order, which a stable sort by name yields.
pub open spec fn entry_before(reg: Seq<EntryV>, a: int, b: int) -> bool {
    seq_lt(reg[a].name, reg[b].name) || (reg[a].name == reg[b].name && a < b)
}

/// The positions of the matching entries, sorted by name (ties in registry
/// order).
pub open spec fn search_result_ok(reg: Seq<EntryV>, query: Option<Seq<char>>, r: Seq<int>) -> bool {
    &&& forall|i: int| 0 <= i < r.len() ==> 0 <= #[trigger] r[i] < reg.len()
    &&& forall|i: int, j: int| 0 <= i < j < r.len() ==> entry_before(reg, #[trigger] r[i], #[trigger] r[j])
    &&& forall|k: int| 0 <= k < reg.len() ==> (search_match(reg[k], query) <==> r.contains(k))
}

pub fn search_registry(registry: &[RegistryEntry], query: Option<&str>) -> (r: Vec<usize>)
    ensures
        search_result_ok(
            registry@.map_values(|e: RegistryEntry| e@),
            match query {
                Some(q) => Some(q@),
                None => None,
            },
            r@.map_values(|i: usize| i as int),
        ),
{
    let ghost reg = registry@.map_values(|e: RegistryEntry| e@);
    let ghost qv = match query {
        Some(q) => Some(q@),
        None => None::<Seq<char>>,
    };
    let q: Option<Vec<char>> = match query {
        Some(s) => {
            let l = to_lowercase(s);
            Some(to_chars(l.as_str()))
        },
        None => None,
    };
    let mut r: Vec<usize> = Vec::new();
    let mut i: usize = 0;
    while i < registry.len()
        invariant
            i <= registry@.len(),
            reg == registry@.map_values(|e: RegistryEntry| e@),
            qv == match query {
                Some(q) => Some(q@),
                None => None::<Seq<char>>,
            },
            match q {
                Some(v) => qv matches Some(s) && v@ == lowercase(s),
                None => qv is None,
            },
            forall|a: int| 0 <= a < r@.len() ==> 0 <= #[trigger] r@[a] < i,
            forall|a: int, b: int|
                0 <= a < b < r@.len() ==> entry_before(reg, #[trigger] r@[a] as int, #[trigger] r@[b] as int),
            forall|k: int| 0 <= k < i ==> (search_match(reg[k], qv) <==> r@.contains(k as usize)),
        decreases registry.len() - i,
    {
        let matched = match &q {
            Some(qq) => {
                let n = to_lowercase(registry[i].name.as_str());
                let d = to_lowercase(registry[i].description.as_str());
                let nv = to_chars(n.as_str());
                let dv = to_chars(d.as_str());
                find_sub(nv.as_slice(), qq.as_slice()) || find_sub(dv.as_slice(), qq.as_slice())
            },
            None => true,
        };
        if matched {
            let name = to_chars(registry[i].name.as_str());
            let mut p: usize = 0;
            while p < r.len() && !chars_lt(
                name.as_slice(),
                to_chars(registry[r[p]].name.as_str()).as_slice(),
            )
                invariant
                    p <= r@.len(),
                    i < registry@.len(),
                    reg == registry@.map_values(|e: RegistryEntry| e@),
                    name@ == reg[i as int].name,
                    forall|a: int| 0 <= a < r@.len() ==> 0 <= #[trigger] r@[a] < i,
                    forall|a: int| 0 <= a < p ==> #[trigger] entry_before(reg, r@[a] as int, i as int),
                decreases r.len() - p,
            {
                proof {
                    lemma_lt_total(name@, reg[r@[p as int] as int].name);
                }
                p = p + 1;
            }
            let ghost old_r = r@;
            r.insert(p, i);
            proof {
                if p < old_r.len() {
                    let x = old_r[p as int] as int;
                    assert(seq_lt(reg[i as int].name, reg[x].name));
                }
                assert forall|a: int, b: int| 0 <= a < b < r@.len() implies entry_before(
                    reg,
                    #[trigger] r@[a] as int,
                    #[trigger] r@[b] as int,
                ) by {
                    if b < p {
                        assert(r@[a] == old_r[a] && r@[b] == old_r[b]);
                    } else if b == p {
                        assert(r@[a] == old_r[a]);
                    } else if a == p {
                        assert(r@[b] == old_r[b - 1]);
                        let x = old_r[p as int] as int;
                        let y = old_r[b - 1] as int;
                        if b - 1 > p {
                            assert(entry_before(reg, x, y));
                            if seq_lt(reg[x].name, reg[y].name) {
                                lemma_lt_trans(reg[i as int].name, reg[x].name, reg[y].name);
                            }
                        }
                    } else if a < p {
                        assert(r@[a] == old_r[a] && r@[b] == old_r[b - 1]);
                        let x = old_r[a] as int;
                        let y = old_r[b - 1] as int;
                        assert(entry_before(reg, x, i as int));
                        if p < old_r.len() {
                            let z = old_r[p as int] as int;
                            assert(seq_lt(reg[i as int].name, reg[z].name));
                            if b - 1 > p {
                                assert(entry_before(reg, z, y));
                            }
                            if seq_lt(reg[x].name, reg[i as int].name) {
                                lemma_lt_trans(reg[x].name, reg[i as int].name, reg[z].name);
                            }
                            if b - 1 > p && seq_lt(reg[z].name, reg[y].name) {
                                lemma_lt_trans(reg[x].name, reg[z].name, reg[y].name);
                            }
                        }
                    } else {
                        assert(r@[a] == old_r[a - 1] && r@[b] == old_r[b - 1]);
                    }
                }
                assert forall|k: int| 0 <= k < i + 1 implies (search_match(reg[k], qv)
                    <==> r@.contains(k as usize)) by {
                    if k == i {
                        assert(r@[p as int] == i);
                    } else {
                        if old_r.contains(k as usize) {
                            let c = choose|c: int| 0 <= c < old_r.len() && old_r[c] == k as usize;
                            if c < p {
                                assert(r@[c] == old_r[c]);
                            } else {
                                assert(r@[c + 1] == old_r[c]);
                            }
                        }
                        if r@.contains(k as usize) {
                            let c = choose|c: int| 0 <= c < r@.len() && r@[c] == k as usize;
                            if c < p {
                                assert(old_r[c] == r@[c]);
                            } else if c > p {
                                assert(old_r[c - 1] == r@[c]);
                            }
                        }
                    }
                }
            }
        } else {
            proof {
                assert(!r@.contains(i as usize)) by {
                    if r@.contains(i as usize) {
                        let c = choose|c: int| 0 <= c < r@.len() && r@[c] == i as usize;
                    }
                }
            }
        }
        i = i + 1;
    }
    proof {
        let rv = r@.map_values(|x: usize| x as int);
        assert forall|k: int| 0 <= k < reg.len() implies (search_match(reg[k], qv) <==> rv.contains(
            k,
        )) by {
            if r@.contains(k as usize) {
                let c = choose|c: int| 0 <= c < r@.len() && r@[c] == k as usize;
                assert(rv[c] == k);
            }
            if rv.contains(k) {
                let c = choose|c: int| 0 <= c < rv.len() && rv[c] == k;
                assert(r@[c] == k as usize);
            }
        }
    }
    r
}

// ---------------------------------------------------------------------------
// Listings
// ---------------------------------------------------------------------------

fn opt_or(o: &Option<String>, dflt: &str) -> (r: String)
    ensures
        r@ == match opt_view(*o) {
            Some(v) => v,
            None => dflt@,
        },
{
    match o {
        Some(v) => copy_string(v),
        None => String::from_str(dflt),
    }
}

/// One line of `pkg search`.
pub open spec fn search_line_spec(e: EntryV, installed: bool) -> Seq<char> {
    let mark = if installed {
        " \x1b[32m[installed]\x1b[0m"@
    } else {
        Seq::empty()
    };
    let ptype = match e.pkg_type {
        Some(t) => t,
        None => "source"@,
    };
    let lang = match e.language {
        Some(l) => l,
        None => ""@,
    };
    let tag = if ptype == "compile"@ {
        " \x1b[35m["@ + lang + "-compile]\x1b[0m"@
    } else if ptype == "build"@ {
        " \x1b[35m["@ + match e.build_type {
            Some(b) => b,
            None => "src"@,
        } + "-build]\x1b[0m"@
    } else {
        Seq::empty()
    };
    "  \x1b[33m"@ + e.name + "\x1b[0m  "@ + e.description + mark + tag
}

pub fn search_line(e: &RegistryEntry, installed: bool) -> (r: String)
    ensures
        r@ == search_line_spec(e@, installed),
{
    let mut out: Vec<char> = Vec::new();
    push_str(&mut out, "  \x1b[33m");
    push_str(&mut out, e.name.as_str());
    push_str(&mut out, "\x1b[0m  ");
    push_str(&mut out, e.description.as_str());
    if installed {
        push_str(&mut out, " \x1b[32m[installed]\x1b[0m");
    }
    let ptype = opt_or(&e.pkg_type, "source");
    let lang = opt_or(&e.language, "");
    if str_eq(ptype.as_str(), "compile") {
        push_str(&mut out, " \x1b[35m[");
        push_str(&mut out, lang.as_str());
        push_str(&mut out, "-compile]\x1b[0m");
    } else if str_eq(ptype.as_str(), "build") {
        let bt = opt_or(&e.build_type, "src");
        push_str(&mut out, " \x1b[35m[");
        push_str(&mut out, bt.as_str());
        push_str(&mut out, "-build]\x1b[0m");
    }
    assert(out@ =~= search_line_spec(e@, installed));
    from_chars(out.as_slice())
}

/// What `pkg search` prints for the entries at `results` (each with
/// whether it is installed): a heading and a line for each, with a hint
/// after them when there was no query; when nothing matched, a line that
/// says so, with the query lowercased.
pub open spec fn search_output_spec(
    reg: Seq<EntryV>,
    query: Option<Seq<char>>,
    results: Seq<int>,
    installed: Seq<bool>,
) -> Seq<Seq<char>> {
    if results.len() == 0 {
        match query {
            Some(q) => seq!["No packages found matching '"@ + lowercase(q) + "'."@],
            None => seq!["No packages available."@],
        }
    } else {
        seq!["Available packages:"@] + Seq::new(
            results.len(),
            |i: int| search_line_spec(reg[results[i]], installed[i]),
        ) + if query is None {
            seq![Seq::<char>::empty(), "Run 'pkg install <package>' to install a package."@]
        } else {
            Seq::empty()
        }
    }
}

pub fn search_output(
    registry: &[RegistryEntry],
    query: Option<&str>,
    results: &[usize],
    installed: &[bool],
) -> (r: Vec<String>)
    requires
        installed@.len() == results@.len(),
        forall|i: int| 0 <= i < results@.len() ==> #[trigger] results@[i] < registry@.len(),
    ensures
        views(r@) == search_output_spec(
            registry@.map_values(|e: RegistryEntry| e@),
            match query {
                Some(q) => Some(q@),
                None => None,
            },
            results@.map_values(|i: usize| i as int),
            installed@,
        ),
{
    let ghost reg = registry@.map_values(|e: RegistryEntry| e@);
    let ghost rs = results@.map_values(|i: usize| i as int);
    let mut out: Vec<String> = Vec::new();
    if results.len() == 0 {
        match query {
            Some(q) => {
                let lower = to_lowercase(q);
                let mut l: Vec<char> = Vec::new();
                push_str(&mut l, "No packages found matching '");
                push_str(&mut l, lower.as_str());
                push_str(&mut l, "'.");
                out.push(from_chars(l.as_slice()));
                assert(views(out@) =~= seq!["No packages found matching '"@ + lowercase(q@) + "'."@]);
            },
            None => {
                out.push(String::from_str("No packages available."));
                assert(views(out@) =~= seq!["No packages available."@]);
            },
        }
        return out;
    }
    out.push(String::from_str("Available packages:"));
    let mut i: usize = 0;
    while i < results.len()
        invariant
            i <= results@.len(),
            installed@.len() == results@.len(),
            forall|k: int| 0 <= k < results@.len() ==> #[trigger] results@[k] < registry@.len(),
            reg == registry@.map_values(|e: RegistryEntry| e@),
            rs == results@.map_values(|i: usize| i as int),
            views(out@) == seq!["Available packages:"@] + Seq::new(
                i as nat,
                |k: int| search_line_spec(reg[rs[k]], installed@[k]),
            ),
        decreases results.len() - i,
    {
        let ghost before = views(out@);
        let idx = results[i];
        out.push(search_line(&registry[idx], installed[i]));
        let ghost f = |k: int| search_line_spec(reg[rs[k]], installed@[k]);
        assert(rs[i as int] == idx as int);
        assert(reg[idx as int] == registry@[idx as int]@);
        assert(views(out@) =~= before.push(f(i as int)));
        assert(Seq::new((i + 1) as nat, f) =~= Seq::new(i as nat, f).push(f(i as int)));
        assert(views(out@) =~= seq!["Available packages:"@] + Seq::new(
            (i + 1) as nat,
            |k: int| search_line_spec(reg[rs[k]], installed@[k]),
        ));
        i = i + 1;
    }
    let ghost body = views(out@);
    if query.is_none() {
        out.push(String::new());
        out.push(String::from_str("Run 'pkg install <package>' to install a package."));
        assert(views(out@) =~= body + seq![
            Seq::<char>::empty(),
            "Run 'pkg install <package>' to install a package."@,
        ]);
    } else {
        assert(views(out@) =~= body + Seq::<Seq<char>>::empty());
    }
    out
}

/// What `pkg list` prints for the installed packages (each with its
/// metadata, when it could be read, and whether it is enabled).
pub open spec fn list_output_spec(
    names: Seq<Seq<char>>,
    metas: Seq<Option<PackageV>>,
    enabled: Seq<bool>,
) -> Seq<Seq<char>> {
    if names.len() == 0 {
        seq![
            "No packages installed."@,
            "  Run 'pkg search' to see available packages."@,
            "  Run 'pkg install <package>' to install one."@,
        ]
    } else {
        seq!["Installed packages:"@] + Seq::new(
            names.len(),
            |i: int| list_line_spec(names[i], metas[i], enabled[i]),
        )
    }
}

pub fn list_output(names: &[String], metas: &[Option<Package>], enabled: &[bool]) -> (r: Vec<
    String,
>)
    requires
        metas@.len() == names@.len(),
        enabled@.len() == names@.len(),
    ensures
        views(r@) == list_output_spec(
            views(names@),
            metas@.map_values(
                |m: Option<Package>| match m {
                    Some(p) => Some(p@),
                    None => None,
                },
            ),
            enabled@,
        ),
{
    let ghost mv = metas@.map_values(
        |m: Option<Package>| match m {
            Some(p) => Some(p@),
            None => None,
        },
    );
    let mut out: Vec<String> = Vec::new();
    if names.len() == 0 {
        out.push(String::from_str("No packages installed."));
        out.push(String::from_str("  Run 'pkg search' to see available packages."));
        out.push(String::from_str("  Run 'pkg install <package>' to install one."));
        assert(views(out@) =~= seq![
            "No packages installed."@,
            "  Run 'pkg search' to see available packages."@,
            "  Run 'pkg install <package>' to install one."@,
        ]);
        return out;
    }
    out.push(String::from_str("Installed packages:"));
    let mut i: usize = 0;
    while i < names.len()
        invariant
            i <= names@.len(),
            metas@.len() == names@.len(),
            enabled@.len() == names@.len(),
            mv == metas@.map_values(
                |m: Option<Package>| match m {
                    Some(p) => Some(p@),
                    None => None,
                },
            ),
            views(out@) == seq!["Installed packages:"@] + Seq::new(
                i as nat,
                |k: int| list_line_spec(views(names@)[k], mv[k], enabled@[k]),
            ),
        decreases names.len() - i,
    {
        let meta: Option<&Package> = match &metas[i] {
            Some(p) => Some(p),
            None => None,
        };
        assert(match meta {
            Some(p) => Some(p@),
            None => None,
        } == mv[i as int]);
        let ghost before = views(out@);
        out.push(list_line(names[i].as_str(), meta, enabled[i]));
        let ghost f = |k: int| list_line_spec(views(names@)[k], mv[k], enabled@[k]);
        assert(views(out@) =~= before.push(f(i as int)));
        assert(Seq::new((i + 1) as nat, f) =~= Seq::new(i as nat, f).push(f(i as int)));
        assert(views(out@) =~= seq!["Installed packages:"@] + Seq::new(
            (i + 1) as nat,
            |k: int| list_line_spec(views(names@)[k], mv[k], enabled@[k]),
        ));
        i = i + 1;
    }
    out
}

pub open spec fn enabled_word(enabled: bool) -> Seq<char> {
    if enabled {
        "enabled"@
    } else {
        "disabled"@
    }
}

/// One line of `pkg list`, with the installed metadata when it could be
/// read.
pub open spec fn list_line_spec(name: Seq<char>, meta: Option<PackageV>, enabled: bool) -> Seq<char> {
    match meta {
        Some(m) => "  \x1b[32m"@ + name + "\x1b[0m v"@ + m.version + "  \x1b[34m"@
            + m.description + "\x1b[0m  ["@ + enabled_word(enabled) + "]"@,
        None => "  \x1b[32m"@ + name + "\x1b[0m  ["@ + enabled_word(enabled) + "]"@,
    }
}

pub fn list_line(name: &str, meta: Option<&Package>, enabled: bool) -> (r: String)
    ensures
        r@ == list_line_spec(
            name@,
            match meta {
                Some(m) => Some(m@),
                None => None,
            },
            enabled,
        ),
{
    let word = if enabled {
        "enabled"
    } else {
        "disabled"
    };
    let mut out: Vec<char> = Vec::new();
    push_str(&mut out, "  \x1b[32m");
    push_str(&mut out, name);
    match meta {
        Some(m) => {
            push_str(&mut out, "\x1b[0m v");
            push_str(&mut out, m.version.as_str());
            push_str(&mut out, "  \x1b[34m");
            push_str(&mut out, m.description.as_str());
            push_str(&mut out, "\x1b[0m  [");
        },
        None => {
            push_str(&mut out, "\x1b[0m  [");
        },
    }
    push_str(&mut out, word);
    push_str(&mut out, "]");
    assert(out@ =~= list_line_spec(
        name@,
        match meta {
            Some(m) => Some(m@),
            None => None,
        },
        enabled,
    ));
    from_chars(out.as_slice())
}

pub open spec fn status_text(installed: bool, enabled: bool) -> Seq<char> {
    if installed && enabled {
        "installed, enabled"@
    } else if installed {
        "installed, disabled"@
    } else {
        "not installed"@
    }
}

/// Number of lines, as `str::lines().count()` gives it.
pub fn count_lines(s: &str) -> (r: usize)
    ensures
        r == lines(s@).len(),
{
    let c = to_chars(s);
    split_lines(&c).len()
}

pub open spec fn opt_lines(o: Option<Seq<char>>, prefix: Seq<char>) -> Seq<Seq<char>> {
    match o {
        Some(v) => seq![prefix + v],
        None => Seq::empty(),
    }
}

/// The lines of `pkg info`.
pub open spec fn info_lines_spec(p: PackageV, installed: bool, enabled: bool) -> Seq<Seq<char>> {
    let ptype = match p.pkg_type {
        Some(t) => t,
        None => "source"@,
    };
    let head = seq![
        "\x1b[1m"@ + p.name + "\x1b[0m v"@ + p.version,
        "  "@ + p.description,
        Seq::<char>::empty(),
        "  Status:     "@ + status_text(installed, enabled),
        "  Type:       "@ + ptype,
    ];
    let l1 = opt_lines(p.language, "  Language:   "@);
    let l2 = opt_lines(p.author, "  Author:     "@);
    let l3 = if p.depends.len() > 0 {
        seq!["  Depends:    "@ + join(p.depends, ", "@)]
    } else {
        Seq::empty()
    };
    let l4 = if p.env.len() > 0 {
        seq!["  Env vars:   "@ + join(Seq::new(p.env.len(), |i: int| p.env[i].0), ", "@)]
    } else {
        Seq::empty()
    };
    let l5 = if ptype == "compile"@ {
        match p.source {
            Some(src) => seq!["  Source:     "@ + decimal(lines(src).len()) + " lines"@],
            None => Seq::empty(),
        }
    } else {
        Seq::empty()
    };
    let l6 = if ptype == "build"@ {
        opt_lines(p.source_url, "  Repo:       "@) + opt_lines(p.build_type, "  Build:      "@)
    } else {
        Seq::empty()
    };
    let l7 = if p.files.len() > 0 {
        seq!["  Scripts:    "@ + decimal(p.files.len()) + " file(s)"@] + Seq::new(
            p.files.len(),
            |i: int| "    - "@ + p.files[i].path + " ("@ + decimal(lines(p.files[i].content).len())
                + " lines)"@,
        )
    } else {
        Seq::empty()
    };
    head + l1 + l2 + l3 + l4 + l5 + l6 + l7
}

fn push_line(out: &mut Vec<String>, parts: &Vec<char>)
    ensures
        views(final(out)@) == views(old(out)@).push(parts@),
{
    let ghost before = views(out@);
    out.push(from_chars(parts.as_slice()));
    assert(views(out@) =~= before.push(parts@));
}

fn push_opt_line(out: &mut Vec<String>, o: &Option<String>, prefix: &str)
    ensures
        views(final(out)@) == views(old(out)@) + opt_lines(opt_view(*o), prefix@),
{
    match o {
        Some(v) => {
            let mut l = to_chars(prefix);
            push_str(&mut l, v.as_str());
            push_line(out, &l);
            assert(views(out@) =~= views(old(out)@) + opt_lines(opt_view(*o), prefix@));
        },
        None => {
            assert(views(out@) =~= views(old(out)@) + opt_lines(opt_view(*o), prefix@));
        },
    }
}

fn append_lines(out: &mut Vec<String>, v: Vec<String>)
    ensures
        views(final(out)@) == views(old(out)@) + views(v@),
{
    let mut v = v;
    let ghost vv = views(v@);
    let mut rev: Vec<String> = Vec::new();
    while v.len() > 0
        invariant
            views(v@) + views(rev@).reverse() == vv,
        decreases v.len(),
    {
        let ghost b1 = views(v@);
        let ghost b2 = views(rev@);
        let x = v.pop().unwrap();
        rev.push(x);
        assert(b1 =~= views(v@).push(x@));
        assert(views(rev@) =~= b2.push(x@));
        assert(views(rev@).reverse() =~= seq![x@] + b2.reverse());
        assert(views(v@) + views(rev@).reverse() =~= b1 + b2.reverse());
    }
    assert(views(v@) =~= Seq::<Seq<char>>::empty());
    let ghost start = views(out@);
    while rev.len() > 0
        invariant
            views(out@) + views(rev@).reverse() == start + vv,
        decreases rev.len(),
    {
        let ghost b1 = views(rev@);
        let ghost b0 = views(out@);
        let x = rev.pop().unwrap();
        out.push(x);
        assert(b1 =~= views(rev@).push(x@));
        assert(b1.reverse() =~= seq![x@] + views(rev@).reverse());
        assert(views(out@) =~= b0.push(x@));
        assert(views(out@) + views(rev@).reverse() =~= b0 + b1.reverse());
    }
    assert(views(rev@).reverse() =~= Seq::<Seq<char>>::empty());
    assert(views(out@) + Seq::<Seq<char>>::empty() =~= views(out@));
}

fn info_head(p: &Package, installed: bool, enabled: bool) -> (r: Vec<String>)
    ensures
        views(r@) == ({
            let ptype = match p@.pkg_type {
                Some(t) => t,
                None => "source"@,
            };
            seq![
                "\x1b[1m"@ + p@.name + "\x1b[0m v"@ + p@.version,
                "  "@ + p@.description,
                Seq::<char>::empty(),
                "  Status:     "@ + status_text(installed, enabled),
                "  Type:       "@ + ptype,
            ] + opt_lines(p@.language, "  Language:   "@) + opt_lines(p@.author, "  Author:     "@)
        }),
{
    let mut out: Vec<String> = Vec::new();
    let ptype = opt_or(&p.pkg_type, "source");
    let status = if installed && enabled {
        "installed, enabled"
    } else if installed {
        "installed, disabled"
    } else {
        "not installed"
    };
    let mut l = to_chars("\x1b[1m");
    push_str(&mut l, p.name.as_str());
    push_str(&mut l, "\x1b[0m v");
    push_str(&mut l, p.version.as_str());
    push_line(&mut out, &l);
    let mut l = to_chars("  ");
    push_str(&mut l, p.description.as_str());
    push_line(&mut out, &l);
    let l: Vec<char> = Vec::new();
    push_line(&mut out, &l);
    let mut l = to_chars("  Status:     ");
    push_str(&mut l, status);
    push_line(&mut out, &l);
    let mut l = to_chars("  Type:       ");
    push_str(&mut l, ptype.as_str());
    push_line(&mut out, &l);
    push_opt_line(&mut out, &p.language, "  Language:   ");
    push_opt_line(&mut out, &p.author, "  Author:     ");
    out
}

fn info_depends_env(p: &Package) -> (r: Vec<String>)
    ensures
        views(r@) == (if p@.depends.len() > 0 {
            seq!["  Depends:    "@ + join(p@.depends, ", "@)]
        } else {
            Seq::empty()
        }) + (if p@.env.len() > 0 {
            seq!["  Env vars:   "@ + join(Seq::new(p@.env.len(), |i: int| p@.env[i].0), ", "@)]
        } else {
            Seq::empty()
        }),
{
    let ghost pv = p@;
    let mut out: Vec<String> = Vec::new();
    if p.depends.len() > 0 {
        let mut l = to_chars("  Depends:    ");
        let j = join_strings(p.depends.as_slice(), ", ");
        push_str(&mut l, j.as_str());
        push_line(&mut out, &l);
    }
    let ghost mid = views(out@);
    if p.env.len() > 0 {
        let mut keys: Vec<String> = Vec::new();
        let mut i: usize = 0;
        while i < p.env.len()
            invariant
                i <= p.env@.len(),
                keys@.len() == i,
                forall|k: int| 0 <= k < i ==> (#[trigger] keys@[k])@ == p.env@[k].0@,
            decreases p.env.len() - i,
        {
            keys.push(copy_string(&p.env[i].0));
            i = i + 1;
        }
        assert(views(keys@) =~= Seq::new(pv.env.len(), |i: int| pv.env[i].0));
        let mut l = to_chars("  Env vars:   ");
        let j = join_strings(keys.as_slice(), ", ");
        push_str(&mut l, j.as_str());
        push_line(&mut out, &l);
    }
    assert(views(out@) =~= (if pv.depends.len() > 0 {
        seq!["  Depends:    "@ + join(pv.depends, ", "@)]
    } else {
        Seq::empty()
    }) + (if pv.env.len() > 0 {
        seq!["  Env vars:   "@ + join(Seq::new(pv.env.len(), |i: int| pv.env[i].0), ", "@)]
    } else {
        Seq::empty()
    }));
    out
}

fn info_kind(p: &Package) -> (r: Vec<String>)
    ensures
        views(r@) == ({
            let ptype = match p@.pkg_type {
                Some(t) => t,
                None => "source"@,
            };
            (if ptype == "compile"@ {
                match p@.source {
                    Some(src) => seq!["  Source:     "@ + decimal(lines(src).len()) + " lines"@],
                    None => Seq::empty(),
                }
            } else {
                Seq::empty()
            }) + (if ptype == "build"@ {
                opt_lines(p@.source_url, "  Repo:       "@) + opt_lines(p@.build_type, "  Build:      "@)
            } else {
                Seq::empty()
            })
        }),
{
    let ghost pv = p@;
    let ptype = opt_or(&p.pkg_type, "source");
    let mut out: Vec<String> = Vec::new();
    if str_eq(ptype.as_str(), "compile") {
        match &p.source {
            Some(src) => {
                let mut l = to_chars("  Source:     ");
                let n = count_lines(src.as_str());
                push_decimal(&mut l, n as u64);
                push_str(&mut l, " lines");
                push_line(&mut out, &l);
            },
            None => {},
        }
    }
    let ghost mid = views(out@);
    if str_eq(ptype.as_str(), "build") {
        push_opt_line(&mut out, &p.source_url, "  Repo:       ");
        push_opt_line(&mut out, &p.build_type, "  Build:      ");
    }
    assert(views(out@) =~= mid + (if ptype@ == "build"@ {
        opt_lines(pv.source_url, "  Repo:       "@) + opt_lines(pv.build_type, "  Build:      "@)
    } else {
        Seq::empty()
    }));
    out
}

fn info_files(p: &Package) -> (r: Vec<String>)
    ensures
        views(r@) == (if p@.files.len() > 0 {
            seq!["  Scripts:    "@ + decimal(p@.files.len()) + " file(s)"@] + Seq::new(
                p@.files.len(),
                |i: int| "    - "@ + p@.files[i].path + " ("@ + decimal(lines(p@.files[i].content).len())
                    + " lines)"@,
            )
        } else {
            Seq::empty()
        }),
{
    let ghost pv = p@;
    let mut out: Vec<String> = Vec::new();
    if p.files.len() > 0 {
        let mut l = to_chars("  Scripts:    ");
        push_decimal(&mut l, p.files.len() as u64);
        push_str(&mut l, " file(s)");
        push_line(&mut out, &l);
        let ghost start = views(out@);
        let mut i: usize = 0;
        while i < p.files.len()
            invariant
                i <= p.files@.len(),
                pv == p@,
                views(out@) == start + Seq::new(
                    i as nat,
                    |k: int| "    - "@ + pv.files[k].path + " ("@ + decimal(
                        lines(pv.files[k].content).len(),
                    ) + " lines)"@,
                ),
            decreases p.files.len() - i,
        {
            let mut l = to_chars("    - ");
            push_str(&mut l, p.files[i].path.as_str());
            push_str(&mut l, " (");
            let n = count_lines(p.files[i].content.as_str());
            push_decimal(&mut l, n as u64);
            push_str(&mut l, " lines)");
            push_line(&mut out, &l);
            assert(views(out@) =~= start + Seq::new(
                (i + 1) as nat,
                |k: int| "    - "@ + pv.files[k].path + " ("@ + decimal(
                    lines(pv.files[k].content).len(),
                ) + " lines)"@,
            ));
            i = i + 1;
        }
    } else {
        assert(views(out@) =~= Seq::<Seq<char>>::empty());
    }
    out
}

pub fn info_lines(p: &Package, installed: bool, enabled: bool) -> (r: Vec<String>)
    requires
        p.wf(),
    ensures
        views(r@) == info_lines_spec(p@, installed, enabled),
{
    let mut out = info_head(p, installed, enabled);
    append_lines(&mut out, info_depends_env(p));
    append_lines(&mut out, info_kind(p));
    append_lines(&mut out, info_files(p));
    assert(views(out@) =~= info_lines_spec(p@, installed, enabled));
    out
}

// ---------------------------------------------------------------------------
// Updates, compiling, building, PATH
// ---------------------------------------------------------------------------

/// `pkg update` replaces an installed package when the first registry
/// entry with its name has another version.
pub open spec fn needs_update_spec(reg: Seq<EntryV>, name: Seq<char>, version: Seq<char>) -> bool {
    exists|i: int|
        0 <= i < reg.len() && (#[trigger] reg[i]).name == name && reg[i].version != version
            && forall|k: int| 0 <= k < i ==> (#[trigger] reg[k]).name != name
}

pub fn needs_update(registry: &[RegistryEntry], name: &str, version: &str) -> (r: bool)
    ensures
        r == needs_update_spec(registry@.map_values(|e: RegistryEntry| e@), name@, version@),
{
    let ghost reg = registry@.map_values(|e: RegistryEntry| e@);
    let mut i: usize = 0;
    while i < registry.len()
        invariant
            i <= registry@.len(),
            reg == registry@.map_values(|e: RegistryEntry| e@),
            forall|k: int| 0 <= k < i ==> (#[trigger] reg[k]).name != name@,
        decreases registry.len() - i,
    {
        if str_eq(registry[i].name.as_str(), name) {
            let differs = !str_eq(registry[i].version.as_str(), version);
            proof {
                if !differs {
                    assert forall|j: int|
                        !(0 <= j < reg.len() && (#[trigger] reg[j]).name == name@ && reg[j].version
                            != version@ && forall|k: int| 0 <= k < j ==> (#[trigger] reg[k]).name
                            != name@) by {
                        if 0 <= j < reg.len() && reg[j].name == name@ && j != i {
                            if j > i {
                                assert(reg[i as int].name == name@);
                            }
                        }
                    }
                } else {
                    assert(reg[i as int].name == name@);
                }
            }
            return differs;
        }
        i = i + 1;
    }
    false
}

/// `  -> updating NAME: OLD -> NEW`, when `pkg update` replaces the package.
pub open spec fn update_notice_spec(reg: Seq<EntryV>, name: Seq<char>, version: Seq<char>) -> Option<
    Seq<char>,
> {
    if needs_update_spec(reg, name, version) {
        let i = choose|i: int|
            0 <= i < reg.len() && (#[trigger] reg[i]).name == name && reg[i].version != version
                && forall|k: int| 0 <= k < i ==> (#[trigger] reg[k]).name != name;
        Some("  -> updating "@ + name + ": "@ + version + " -> "@ + reg[i].version)
    } else {
        None
    }
}

pub fn update_notice(registry: &[RegistryEntry], name: &str, version: &str) -> (r: Option<String>)
    ensures
        match r {
            Some(l) => update_notice_spec(
                registry@.map_values(|e: RegistryEntry| e@),
                name@,
                version@,
            ) == Some(l@),
            None => update_notice_spec(
                registry@.map_values(|e: RegistryEntry| e@),
                name@,
                version@,
            ) is None,
        },
{
    let ghost reg = registry@.map_values(|e: RegistryEntry| e@);
    if !needs_update(registry, name, version) {
        return None;
    }
    let mut i: usize = 0;
    while i < registry.len()
        invariant
            i <= registry@.len(),
            reg == registry@.map_values(|e: RegistryEntry| e@),
            needs_update_spec(reg, name@, version@),
            forall|k: int| 0 <= k < i ==> (#[trigger] reg[k]).name != name@,
        decreases registry.len() - i,
    {
        if str_eq(registry[i].name.as_str(), name) {
            proof {
                let j = choose|j: int|
                    0 <= j < reg.len() && (#[trigger] reg[j]).name == name@ && reg[j].version
                        != version@ && forall|k: int| 0 <= k < j ==> (#[trigger] reg[k]).name
                        != name@;
                assert(reg[i as int].name == name@);
                if j < i {
                    assert(reg[j].name != name@);
                }
                if j > i {
                    assert(reg[i as int].name != name@);
                }
                assert(j == i);
            }
            let mut out: Vec<char> = Vec::new();
            push_str(&mut out, "  -> updating ");
            push_str(&mut out, name);
            push_str(&mut out, ": ");
            push_str(&mut out, version);
            push_str(&mut out, " -> ");
            push_str(&mut out, registry[i].version.as_str());
            assert(out@ =~= "  -> updating "@ + name@ + ": "@ + version@ + " -> "@ + reg[i as int].version);
            return Some(from_chars(out.as_slice()));
        }
        i = i + 1;
    }
    proof {
        let j = choose|j: int|
            0 <= j < reg.len() && (#[trigger] reg[j]).name == name@ && reg[j].version != version@
                && forall|k: int| 0 <= k < j ==> (#[trigger] reg[k]).name != name@;
        assert(reg[j].name != name@);
    }
    None
}

pub enum Compiler {
    Gcc,
    Rustc,
}

/// How a `compile` package is built: which compiler, the file name its
/// source is written to, and the binary's name.
pub struct CompilePlan {
    pub compiler: Compiler,
    pub source_file: String,
    pub bin_name: String,
}

pub enum CompileError {
    NoSource,
    UnsupportedLanguage,
}

pub open spec fn bin_name_spec(p: PackageV) -> Seq<char> {
    match p.binary {
        Some(b) => b,
        None => p.name,
    }
}

pub fn compile_plan(p: &Package) -> (r: Result<CompilePlan, CompileError>)
    ensures
        p@.source is None ==> r matches Err(CompileError::NoSource),
        p@.source is Some ==> match p@.language {
            None => r matches Ok(plan) && plan.compiler is Gcc && plan.source_file@ == "source.c"@,
            Some(l) => if l == "c"@ || l == "c99"@ {
                r matches Ok(plan) && plan.compiler is Gcc && plan.source_file@ == "source.c"@
            } else if l == "rust"@ || l == "rs"@ {
                r matches Ok(plan) && plan.compiler is Rustc && plan.source_file@ == "main.rs"@
            } else {
                r matches Err(CompileError::UnsupportedLanguage)
            },
        },
        r matches Ok(plan) ==> plan.bin_name@ == bin_name_spec(p@),
{
    if p.source.is_none() {
        return Err(CompileError::NoSource);
    }
    let bin_name = match &p.binary {
        Some(b) => copy_string(b),
        None => copy_string(&p.name),
    };
    let c_like = match &p.language {
        None => true,
        Some(l) => str_eq(l.as_str(), "c") || str_eq(l.as_str(), "c99"),
    };
    if c_like {
        return Ok(
            CompilePlan {
                compiler: Compiler::Gcc,
                source_file: String::from_str("source.c"),
                bin_name,
            },
        );
    }
    let rust = match &p.language {
        None => false,
        Some(l) => str_eq(l.as_str(), "rust") || str_eq(l.as_str(), "rs"),
    };
    if rust {
        return Ok(
            CompilePlan {
                compiler: Compiler::Rustc,
                source_file: String::from_str("main.rs"),
                bin_name,
            },
        );
    }
    Err(CompileError::UnsupportedLanguage)
}

pub enum BuildKind {
    Cmake,
    Cargo,
    Make,
    Unsupported,
}

/// How a `build` package is built: `cmake`, `cargo`, plain `make` when no
/// build type is given, anything else unsupported.
pub fn build_kind(build_type: Option<&str>) -> (r: BuildKind)
    ensures
        match build_type {
            None => r is Make,
            Some(b) => if b@ == "cmake"@ {
                r is Cmake
            } else if b@ == "cargo"@ {
                r is Cargo
            } else {
                r is Unsupported
            },
        },
{
    match build_type {
        None => BuildKind::Make,
        Some(b) => if str_eq(b, "cmake") {
            BuildKind::Cmake
        } else if str_eq(b, "cargo") {
            BuildKind::Cargo
        } else {
            BuildKind::Unsupported
        },
    }
}


/// `PATH` with the binary directory put in front, unless one of its
/// entries already is that directory.
pub open spec fn path_with_bin_spec(current: Seq<char>, bin: Seq<char>) -> Option<Seq<char>> {
    if split_char(current, ':').contains(bin) {
        None
    } else {
        Some(bin + seq![':'] + current)
    }
}

pub fn path_with_bin(current: &str, bin: &str) -> (r: Option<String>)
    ensures
        match r {
            Some(s) => path_with_bin_spec(current@, bin@) == Some(s@),
            None => path_with_bin_spec(current@, bin@) is None,
        },
{
    let cur = to_chars(current);
    let b = to_chars(bin);
    let mut i: usize = 0;
    let ghost mut seen: Seq<Seq<char>> = Seq::empty();
    assert(cur@.skip(0) =~= cur@);
    let mut done = false;
    while !done
        invariant
            i <= cur@.len(),
            cur@ == current@,
            b@ == bin@,
            done ==> i == cur@.len(),
            seen + (if done {
                Seq::<Seq<char>>::empty()
            } else {
                split_char(cur@.skip(i as int), ':')
            }) == split_char(cur@, ':'),
            !seen.contains(b@),
        decreases cur@.len() - i + (if done { 0int } else { 1int }),
    {
        let ghost rest = cur@.skip(i as int);
        let mut j = i;
        while j < cur.len() && cur[j] != ':'
            invariant
                i <= j <= cur@.len(),
                forall|m: int| i <= m < j ==> cur@[m] != ':',
            decreases cur.len() - j,
        {
            j = j + 1;
        }
        proof {
            assert forall|m: int| 0 <= m < j - i implies crate::text::not_char(':')(
                #[trigger] rest[m],
            ) by {
                assert(rest[m] == cur@[i + m]);
            }
            if j < cur@.len() {
                assert(rest[j - i] == cur@[j as int]);
            }
            crate::text::lemma_prefix_while_unique(rest, crate::text::not_char(':'), j - i);
        }
        let seg = crate::text::subvec(&cur, i, j);
        assert(rest.take(j - i) =~= seg@);
        if j == cur.len() {
            assert(rest =~= seg@);
        }
        assert(split_char(rest, ':')[0] == seg@);
        if crate::text::chars_eq(seg.as_slice(), b.as_slice()) {
            proof {
                let full = split_char(cur@, ':');
                assert(full == seen + split_char(rest, ':'));
                assert(full[seen.len() as int] == seg@);
                assert(full.contains(b@));
            }
            return None;
        }
        proof {
            if j == cur@.len() {
                assert(rest =~= seg@);
                assert(seen.push(seg@) + Seq::<Seq<char>>::empty() =~= split_char(cur@, ':'));
            } else {
                assert(rest.skip(j - i + 1) =~= cur@.skip(j + 1));
                assert(seen.push(seg@) + split_char(cur@.skip(j + 1), ':') =~= split_char(
                    cur@,
                    ':',
                ));
            }
            assert(!seen.push(seg@).contains(b@)) by {
                if seen.push(seg@).contains(b@) {
                    let c = choose|c: int| 0 <= c < seen.push(seg@).len() && seen.push(seg@)[c] == b@;
                    if c < seen.len() {
                        assert(seen[c] == b@);
                    }
                }
            }
            seen = seen.push(seg@);
        }
        if j == cur.len() {
            done = true;
            i = j;
        } else {
            i = j + 1;
        }
    }
    assert(seen + Seq::<Seq<char>>::empty() =~= seen);
    let mut out = b;
    out.push(':');
    crate::text::push_chars(&mut out, &cur);
    Some(from_chars(out.as_slice()))
}

/// The `fastfetch` configuration written for the `sysfetch` package, and
/// its directory, under the home directory (trailing `/`s dropped).
pub open spec fn fastfetch_config_spec(home: Seq<char>) -> (Seq<char>, Seq<char>) {
    let h = home.take(home.len() - crate::text::suffix_while(home, crate::text::is_char('/')));
    (
        "{\"logo\":{\"type\":\"file\",\"source\":\""@ + h + "/.config/fastfetch/logo.txt\"}}"@,
        h + "/.config/fastfetch"@,
    )
}

pub fn fastfetch_config(home: &str) -> (r: (String, String))
    ensures
        (r.0@, r.1@) == fastfetch_config_spec(home@),
{
    let hv = to_chars(home);
    let mut k: usize = 0;
    while k < hv.len() && hv[hv.len() - k - 1] == '/'
        invariant
            k <= hv@.len(),
            forall|m: int| hv@.len() - k <= m < hv@.len() ==> hv@[m] == '/',
        decreases hv.len() - k,
    {
        k = k + 1;
    }
    proof {
        assert forall|m: int| hv@.len() - k <= m < hv@.len() implies crate::text::is_char('/')(
            #[trigger] hv@[m],
        ) by {}
        crate::text::lemma_suffix_while_unique(hv@, crate::text::is_char('/'), k as int);
    }
    let h = crate::text::subvec(&hv, 0, hv.len() - k);
    let mut content = to_chars("{\"logo\":{\"type\":\"file\",\"source\":\"");
    push_chars(&mut content, &h);
    push_str(&mut content, "/.config/fastfetch/logo.txt\"}}");
    let mut dir = h;
    push_str(&mut dir, "/.config/fastfetch");
    (from_chars(content.as_slice()), from_chars(dir.as_slice()))
}

/// Whether a file in the `enabled` directory is a package script.
pub fn is_script_name(name: &str) -> (r: bool)
    ensures
        r == ends_with(name@, ".sh"@),
{
    let n = to_chars(name);
    let s = to_chars(".sh");
    has_suffix(n.as_slice(), s.as_slice())
}

/// Putting the binary directory on `PATH` is done at most once: on the
/// `PATH` that results, it is not added again (for a directory without
/// `:`).
pub proof fn lemma_path_with_bin_once(current: Seq<char>, bin: Seq<char>)
    requires
        !bin.contains(':'),
    ensures
        path_with_bin_spec(current, bin) matches Some(p) ==> path_with_bin_spec(p, bin) is None,
{
    let p = bin + seq![':'] + current;
    assert forall|j: int| 0 <= j < bin.len() implies crate::text::not_char(':')(#[trigger] p[j]) by {
        assert(p[j] == bin[j]);
        if bin[j] == ':' {
            assert(bin.contains(':'));
        }
    }
    assert(p[bin.len() as int] == ':');
    crate::text::lemma_prefix_while_unique(p, crate::text::not_char(':'), bin.len() as int);
    assert(p.take(bin.len() as int) =~= bin);
    assert(split_char(p, ':')[0] == bin);
    assert(split_char(p, ':').contains(bin));
}

/// A package whose scanned content matches a pattern is rejected; one
/// whose content matches none passes.
pub proof fn lemma_scan_rejects_exactly(content: Seq<char>)
    ensures
        scan_spec(content).len() == 0 <==> forall|i: int|
            0 <= i < malicious_checks().len() ==> !contains(
                lowercase(content),
                (#[trigger] malicious_checks()[i]).0,
            ),
{
    lemma_findings_empty(lowercase(content), malicious_checks());
}

proof fn lemma_findings_empty(lower: Seq<char>, checks: Seq<(Seq<char>, Seq<char>)>)
    ensures
        findings_of(lower, checks).len() == 0 <==> forall|i: int|
            0 <= i < checks.len() ==> !contains(lower, (#[trigger] checks[i]).0),
    decreases checks.len(),
{
    if checks.len() > 0 {
        lemma_findings_empty(lower, checks.drop_last());
        if findings_of(lower, checks).len() == 0 {
            assert forall|i: int| 0 <= i < checks.len() implies !contains(
                lower,
                (#[trigger] checks[i]).0,
            ) by {
                if i < checks.len() - 1 {
                    assert(checks[i] == checks.drop_last()[i]);
                }
            }
        } else {
            if forall|i: int| 0 <= i < checks.len() ==> !contains(lower, (#[trigger] checks[i]).0) {
                assert forall|i: int| 0 <= i < checks.drop_last().len() implies !contains(
                    lower,
                    (#[trigger] checks.drop_last()[i]).0,
                ) by {
                    assert(checks.drop_last()[i] == checks[i]);
                }
                assert(!contains(lower, checks[checks.len() - 1].0));
            }
        }
    }
}

} // verus!
