//! The command resolver: which executable a task's command line runs, and
//! the `PATH` that its process sees.

use vstd::prelude::*;
use vstd::string::*;

use crate::text::views;

verus! {

/// What serde_json finds in the text `text`: whether it parses as a JSON
/// document whose member `object` is an object that has a member `member`,
/// whatever that member's value.
pub uninterp spec fn json_member_present(text: Seq<char>, object: Seq<char>, member: Seq<char>) -> bool;

/// Relies on `serde_json::from_str` parsing `text` into a `Value`, and on
/// `serde_json::Value::get` with a string key, which finds a member of an
/// object and nothing in any other value.
#[verifier::external_body]
fn member_present(text: &str, object: &str, member: &str) -> (r: bool)
    ensures
        r == json_member_present(text@, object@, member@),
{
    match serde_json::from_str::<serde_json::Value>(text) {
        Ok(doc) => doc.get(object).and_then(|o| o.get(member)).is_some(),
        Err(_) => false,
    }
}

/// The directory of locally installed tool binaries, relative to the
/// working directory.
pub const LOCAL_BIN_DIR: &'static str = "node_modules/.bin";

/// The scripts manifest in the working directory.
pub const SCRIPTS_MANIFEST: &'static str = "package.json";

/// The lockfile that selects yarn.
pub const YARN_LOCK: &'static str = "yarn.lock";

/// The lockfile that selects pnpm.
pub const PNPM_LOCK: &'static str = "pnpm-lock.yaml";

/// Whether the scripts manifest `package_json` defines a script named
/// `name`: its `scripts` object has a member of that name.
pub open spec fn script_defined(package_json: Seq<char>, name: Seq<char>) -> bool {
    json_member_present(package_json, "scripts"@, name)
}

/// Whether the scripts manifest `package_json` defines a script named
/// `script_name`; the script's command does not matter.
pub fn has_script(package_json: &str, script_name: &str) -> (r: bool)
    ensures
        r == script_defined(package_json@, script_name@),
{
    member_present(package_json, "scripts", script_name)
}

/// The package manager that runs scripts.
#[derive(Debug, Clone, Copy, PartialEq, Eq, Structural)]
pub enum PackageManager {
    Yarn,
    Pnpm,
    Npm,
}

/// The package manager that the lockfiles present select: yarn's lockfile
/// first, then pnpm's, else npm.
pub open spec fn detected(has_yarn_lock: bool, has_pnpm_lock: bool) -> PackageManager {
    if has_yarn_lock {
        PackageManager::Yarn
    } else if has_pnpm_lock {
        PackageManager::Pnpm
    } else {
        PackageManager::Npm
    }
}

/// The program name of a package manager.
pub open spec fn manager_program(p: PackageManager) -> Seq<char> {
    match p {
        PackageManager::Yarn => "yarn"@,
        PackageManager::Pnpm => "pnpm"@,
        PackageManager::Npm => "npm"@,
    }
}

impl PackageManager {
    /// The package manager that the lockfiles present select.
    pub fn detect(has_yarn_lock: bool, has_pnpm_lock: bool) -> (r: PackageManager)
        ensures
            r == detected(has_yarn_lock, has_pnpm_lock),
    {
        if has_yarn_lock {
            PackageManager::Yarn
        } else if has_pnpm_lock {
            PackageManager::Pnpm
        } else {
            PackageManager::Npm
        }
    }

    /// The program to invoke.
    pub fn program(&self) -> (r: String)
        ensures
            r@ == manager_program(*self),
    {
        match self {
            PackageManager::Yarn => String::from_str("yarn"),
            PackageManager::Pnpm => String::from_str("pnpm"),
            PackageManager::Npm => String::from_str("npm"),
        }
    }
}

/// The path of the local binary named `name`.
pub open spec fn local_bin(name: Seq<char>) -> Seq<char> {
    LOCAL_BIN_DIR@ + "/"@ + name
}

/// The path of the local binary named `name`.
pub fn local_bin_path(name: &str) -> (r: String)
    ensures
        r@ == local_bin(name@),
{
    let mut r = String::from_str(LOCAL_BIN_DIR);
    r.append("/");
    r.append(name);
    r
}

/// An executable and its arguments.
#[derive(Debug)]
pub struct ResolvedCommand {
    pub executable: String,
    pub args: Vec<String>,
}

/// The executable and arguments for command words `ws`: a script of the
/// scripts manifest runs through the package manager, else a local binary
/// runs by its path, else the first word is looked up on `PATH`.
pub open spec fn resolution(
    ws: Seq<Seq<char>>,
    script: bool,
    manager: PackageManager,
    local: bool,
) -> (Seq<char>, Seq<Seq<char>>) {
    if script {
        (manager_program(manager), seq!["run"@, ws[0]] + ws.skip(1))
    } else if local {
        (local_bin(ws[0]), ws.skip(1))
    } else {
        (ws[0], ws.skip(1))
    }
}

/// Copies of `ws[from..]`, appended to `out`.
fn push_copies(out: &mut Vec<String>, ws: &Vec<String>, from: usize)
    requires
        from <= ws@.len(),
    ensures
        views(final(out)@) == views(old(out)@) + views(ws@).skip(from as int),
{
    let mut i: usize = from;
    while i < ws.len()
        invariant
            from <= i <= ws@.len(),
            views(out@) == views(old(out)@) + views(ws@).subrange(from as int, i as int),
        decreases ws@.len() - i,
    {
        let ghost prev = views(out@);
        out.push(ws[i].clone());
        assert(views(out@) == prev.push(ws@[i as int]@));
        i += 1;
        assert(views(ws@).subrange(from as int, i as int) == views(ws@).subrange(
            from as int,
            i - 1,
        ).push(ws@[i - 1]@));
    }
    assert(views(ws@).subrange(from as int, i as int) == views(ws@).skip(from as int));
}

/// The executable and arguments for the command words `words`, given
/// whether the scripts manifest defines a script named by the first word,
/// the package manager, and whether a local binary has that name.
pub fn resolve_command(
    words: &Vec<String>,
    script: bool,
    manager: PackageManager,
    local: bool,
) -> (r: ResolvedCommand)
    requires
        words@.len() > 0,
    ensures
        (r.executable@, views(r.args@)) == resolution(views(words@), script, manager, local),
{
    let mut args: Vec<String> = Vec::new();
    let executable = if script {
        args.push(String::from_str("run"));
        args.push(words[0].clone());
        assert(views(args@) == seq!["run"@, words@[0]@]);
        manager.program()
    } else if local {
        local_bin_path(words[0].as_str())
    } else {
        words[0].clone()
    };
    assert(views(args@) + Seq::<Seq<char>>::empty() == views(args@));
    push_copies(&mut args, words, 1);
    ResolvedCommand { executable, args }
}

/// The `PATH` for a child process: the local binary directory, when there
/// is one, ahead of the current `PATH`; nothing to change otherwise.
pub open spec fn child_path(local_dir: Option<Seq<char>>, current: Option<Seq<char>>) -> Option<
    Seq<char>,
> {
    match local_dir {
        None => None,
        Some(d) => match current {
            Some(p) => Some(d + ":"@ + p),
            None => Some(d),
        },
    }
}

/// The `PATH` for a child process, given the canonical path of the local
/// binary directory, if it exists, and the current `PATH`, if it is set.
pub fn enhanced_path(local_dir: Option<&str>, current: Option<&str>) -> (r: Option<String>)
    ensures
        match r {
            Some(s) => child_path(
                match local_dir {
                    Some(d) => Some(d@),
                    None => None,
                },
                match current {
                    Some(p) => Some(p@),
                    None => None,
                },
            ) == Some(s@),
            None => local_dir is None,
        },
{
    match local_dir {
        None => None,
        Some(d) => {
            let mut r = String::from_str(d);
            match current {
                Some(p) => {
                    r.append(":");
                    r.append(p);
                },
                None => {},
            }
            Some(r)
        },
    }
}

} // verus!
