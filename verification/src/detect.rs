//! Framework detection: from what a project directory holds, decide
//! the framework label, the start command, and how the assigned port
//! is handed to the child.

use vstd::prelude::*;

use crate::strutil::{contains_seq, contains_chars, str_eq, string_to_chars};

verus! {

/// How the assigned port reaches the child process.
#[derive(Debug)]
pub enum PortStrategy {
    /// Set this environment variable to the port.
    EnvVar(String),
    /// Append this flag and the port to the command line.
    CliFlag(String),
}

/// Mathematical image of a `PortStrategy`.
pub enum PortStrategyView {
    EnvVar(Seq<char>),
    CliFlag(Seq<char>),
}

impl View for PortStrategy {
    type V = PortStrategyView;

    open spec fn view(&self) -> PortStrategyView {
        match self {
            PortStrategy::EnvVar(s) => PortStrategyView::EnvVar(s@),
            PortStrategy::CliFlag(s) => PortStrategyView::CliFlag(s@),
        }
    }
}

impl PartialEq for PortStrategy {
    fn eq(&self, other: &PortStrategy) -> (r: bool) {
        match (self, other) {
            (PortStrategy::EnvVar(a), PortStrategy::EnvVar(b)) => crate::strutil::str_eq(
                a.as_str(),
                b.as_str(),
            ),
            (PortStrategy::CliFlag(a), PortStrategy::CliFlag(b)) => crate::strutil::str_eq(
                a.as_str(),
                b.as_str(),
            ),
            _ => false,
        }
    }
}

impl vstd::std_specs::cmp::PartialEqSpecImpl for PortStrategy {
    open spec fn obeys_eq_spec() -> bool {
        true
    }

    open spec fn eq_spec(&self, other: &PortStrategy) -> bool {
        self@ == other@
    }
}

/// Detected framework and how to inject the port.
#[derive(Debug)]
pub struct Detection {
    pub framework: String,
    pub start_command: String,
    pub port_strategy: PortStrategy,
}

/// Mathematical image of a `Detection`.
pub struct DetectionView {
    pub framework: Seq<char>,
    pub start_command: Seq<char>,
    pub port_strategy: PortStrategyView,
}

impl View for Detection {
    type V = DetectionView;

    open spec fn view(&self) -> DetectionView {
        DetectionView {
            framework: self.framework@,
            start_command: self.start_command@,
            port_strategy: self.port_strategy@,
        }
    }
}

/// What a `package.json` contributes to detection: the names of all
/// dependencies (development ones included), the names of the
/// scripts, and the text of the `dev` script (empty if absent).
#[derive(Debug)]
pub struct PackageInfo {
    pub deps: Vec<String>,
    pub scripts: Vec<String>,
    pub dev_script: String,
}

/// Mathematical image of a `PackageInfo`.
pub struct PackageInfoView {
    pub deps: Seq<Seq<char>>,
    pub scripts: Seq<Seq<char>>,
    pub dev_script: Seq<char>,
}

impl View for PackageInfo {
    type V = PackageInfoView;

    open spec fn view(&self) -> PackageInfoView {
        PackageInfoView {
            deps: Seq::new(self.deps@.len(), |i: int| self.deps@[i]@),
            scripts: Seq::new(self.scripts@.len(), |i: int| self.scripts@[i]@),
            dev_script: self.dev_script@,
        }
    }
}

/// `names` holds `n`.
pub open spec fn has_name(names: Seq<Seq<char>>, n: Seq<char>) -> bool {
    exists|i: int| 0 <= i < names.len() && names[i] == n
}

/// A detection with the given fields and an environment-variable
/// strategy.
pub open spec fn dv_env(fw: Seq<char>, cmd: Seq<char>, var: Seq<char>) -> DetectionView {
    DetectionView { framework: fw, start_command: cmd, port_strategy: PortStrategyView::EnvVar(var) }
}

/// A detection with the given fields and a command-line-flag
/// strategy.
pub open spec fn dv_flag(fw: Seq<char>, cmd: Seq<char>, flag: Seq<char>) -> DetectionView {
    DetectionView {
        framework: fw,
        start_command: cmd,
        port_strategy: PortStrategyView::CliFlag(flag),
    }
}

/// The detection rules: known frameworks in priority order from the
/// package manifest; then Rails, Django and Go from their marker
/// files; then a generic fallback.
pub open spec fn spec_detect(
    package: Option<PackageInfoView>,
    has_gemfile: bool,
    has_manage_py: bool,
    has_go_mod: bool,
) -> DetectionView {
    match package {
        Some(p) => {
            if has_name(p.deps, "next"@) {
                dv_env("Next.js"@, "npm run dev"@, "PORT"@)
            } else if has_name(p.deps, "vite"@) || contains_seq(p.dev_script, "vite"@) {
                dv_flag("Vite"@, "npm run dev --"@, "--port"@)
            } else if has_name(p.deps, "react-scripts"@) {
                dv_env("Create React App"@, "npm start"@, "PORT"@)
            } else if has_name(p.deps, "@remix-run/dev"@) {
                dv_env("Remix"@, "npm run dev"@, "PORT"@)
            } else if has_name(p.deps, "nuxt"@) {
                dv_env("Nuxt"@, "npm run dev"@, "PORT"@)
            } else if has_name(p.deps, "@nestjs/core"@) {
                dv_env("NestJS"@, "npm run start:dev"@, "PORT"@)
            } else if has_name(p.deps, "fastify"@) {
                dv_env("Fastify"@, "npm run dev"@, "PORT"@)
            } else if has_name(p.deps, "express"@) {
                dv_env("Express"@, "npm run dev"@, "PORT"@)
            } else if has_name(p.scripts, "dev"@) {
                dv_env("Node.js"@, "npm run dev"@, "PORT"@)
            } else if has_name(p.scripts, "start"@) {
                dv_env("Node.js"@, "npm start"@, "PORT"@)
            } else {
                dv_env("Node.js"@, "npm run dev"@, "PORT"@)
            }
        },
        None => {
            if has_gemfile {
                dv_flag("Rails"@, "rails server"@, "-p"@)
            } else if has_manage_py {
                dv_flag("Django"@, "python manage.py runserver"@, "0.0.0.0:"@)
            } else if has_go_mod {
                dv_env("Go"@, "go run ."@, "PORT"@)
            } else {
                dv_env("Unknown"@, "npm run dev"@, "PORT"@)
            }
        },
    }
}

/// True exactly when `names` holds `n`.
fn names_contain(names: &Vec<String>, n: &str) -> (r: bool)
    ensures
        r == has_name(Seq::new(names@.len(), |i: int| names@[i]@), n@),
{
    let ghost view = Seq::new(names@.len(), |i: int| names@[i]@);
    let mut i: usize = 0;
    while i < names.len()
        invariant
            0 <= i <= names.len(),
            view == Seq::new(names@.len(), |k: int| names@[k]@),
            forall|k: int| 0 <= k < i ==> view[k] != n@,
        decreases names.len() - i,
    {
        if str_eq(names[i].as_str(), n) {
            proof {
                assert(view[i as int] == n@);
            }
            return true;
        }
        i += 1;
    }
    false
}

/// A detection with an environment-variable strategy.
fn make_env(fw: &str, cmd: &str, var: &str) -> (r: Detection)
    ensures
        r@ == dv_env(fw@, cmd@, var@),
{
    Detection {
        framework: fw.to_owned(),
        start_command: cmd.to_owned(),
        port_strategy: PortStrategy::EnvVar(var.to_owned()),
    }
}

/// A detection with a command-line-flag strategy.
fn make_flag(fw: &str, cmd: &str, flag: &str) -> (r: Detection)
    ensures
        r@ == dv_flag(fw@, cmd@, flag@),
{
    Detection {
        framework: fw.to_owned(),
        start_command: cmd.to_owned(),
        port_strategy: PortStrategy::CliFlag(flag.to_owned()),
    }
}

/// Detect the framework from what the project directory holds:
/// `package` is the parsed package manifest if one exists, and the
/// flags report the Rails, Django and Go marker files.
pub fn detect(
    package: Option<&PackageInfo>,
    has_gemfile: bool,
    has_manage_py: bool,
    has_go_mod: bool,
) -> (r: Detection)
    ensures
        r@ == spec_detect(
            match package {
                Some(p) => Some(p@),
                None => None,
            },
            has_gemfile,
            has_manage_py,
            has_go_mod,
        ),
{
    match package {
        Some(p) => {
            let dev_chars = string_to_chars(p.dev_script.as_str());
            let vite_chars = string_to_chars("vite");
            if names_contain(&p.deps, "next") {
                make_env("Next.js", "npm run dev", "PORT")
            } else if names_contain(&p.deps, "vite") || contains_chars(&dev_chars, &vite_chars) {
                make_flag("Vite", "npm run dev --", "--port")
            } else if names_contain(&p.deps, "react-scripts") {
                make_env("Create React App", "npm start", "PORT")
            } else if names_contain(&p.deps, "@remix-run/dev") {
                make_env("Remix", "npm run dev", "PORT")
            } else if names_contain(&p.deps, "nuxt") {
                make_env("Nuxt", "npm run dev", "PORT")
            } else if names_contain(&p.deps, "@nestjs/core") {
                make_env("NestJS", "npm run start:dev", "PORT")
            } else if names_contain(&p.deps, "fastify") {
                make_env("Fastify", "npm run dev", "PORT")
            } else if names_contain(&p.deps, "express") {
                make_env("Express", "npm run dev", "PORT")
            } else if names_contain(&p.scripts, "dev") {
                make_env("Node.js", "npm run dev", "PORT")
            } else if names_contain(&p.scripts, "start") {
                make_env("Node.js", "npm start", "PORT")
            } else {
                make_env("Node.js", "npm run dev", "PORT")
            }
        },
        None => {
            if has_gemfile {
                make_flag("Rails", "rails server", "-p")
            } else if has_manage_py {
                make_flag("Django", "python manage.py runserver", "0.0.0.0:")
            } else if has_go_mod {
                make_env("Go", "go run .", "PORT")
            } else {
                make_env("Unknown", "npm run dev", "PORT")
            }
        },
    }
}

/// The dependency names of a manifest, development dependencies
/// appended after the regular ones.
pub fn merge_deps(deps: &Vec<String>, dev_deps: &Vec<String>) -> (r: Vec<String>)
    ensures
        r@.len() == deps@.len() + dev_deps@.len(),
        forall|i: int| 0 <= i < deps@.len() ==> r@[i]@ == deps@[i]@,
        forall|i: int|
            0 <= i < dev_deps@.len() ==> r@[deps@.len() + i]@ == dev_deps@[i]@,
{
    let mut out: Vec<String> = Vec::new();
    let mut i: usize = 0;
    while i < deps.len()
        invariant
            0 <= i <= deps.len(),
            out@.len() == i,
            forall|k: int| 0 <= k < i ==> out@[k]@ == deps@[k]@,
        decreases deps.len() - i,
    {
        out.push(deps[i].clone());
        i += 1;
    }
    let mut j: usize = 0;
    while j < dev_deps.len()
        invariant
            0 <= j <= dev_deps.len(),
            out@.len() == deps@.len() + j,
            forall|k: int| 0 <= k < deps@.len() ==> out@[k]@ == deps@[k]@,
            forall|k: int| 0 <= k < j ==> out@[deps@.len() + k]@ == dev_deps@[k]@,
        decreases dev_deps.len() - j,
    {
        out.push(dev_deps[j].clone());
        j += 1;
    }
    out
}

} // verus!
