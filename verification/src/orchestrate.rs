//! The compilation planner: from a validated configuration, the build output
//! directory and the manifest bytes it derives everything one build needs —
//! dependency-registration lines, the two external tool invocations, the
//! generated source path and the name of the linkable unit — and it models
//! the scoped override of the ambient compiler-flags variable.
//!
//! Nothing here touches the filesystem, the environment or a process: the
//! unverified shell reads the manifest, probes the environment, runs the
//! planned commands in order and applies the planned environment actions.

use crate::config::definition_stem;
use crate::config::valid_definition_path;
use crate::config::Resource;
use crate::scanner::scan_manifest;
use crate::scanner::scan_spec;
use crate::scanner::ParseError;
use crate::scanner::ScanErrorKind;
use vstd::prelude::*;
use vstd::string::StrSliceExecFns;
use vstd::string::StringExecFns;

verus! {

/// The prefix of every dependency-registration line.
pub open spec fn dep_line_prefix() -> Seq<char> {
    "cargo:rerun-if-changed="@
}

/// The dependency-registration line for one path.
pub open spec fn dep_line(p: Seq<char>) -> Seq<char> {
    dep_line_prefix() + p
}

/// A relative path joined onto a directory, with a single `/` between them
/// unless the directory is empty or already ends in `/`.
pub open spec fn joined_path(dir: Seq<char>, rel: Seq<char>) -> Seq<char> {
    if dir.len() == 0 {
        rel
    } else if dir.last() == '/' {
        dir + rel
    } else {
        dir + seq!['/'] + rel
    }
}

/// A dependency-registration line for the enclosing build system: changes to
/// `path` must re-run this build step.
pub fn dependency_line(path: &str) -> (r: String)
    ensures
        r@ == dep_line(path@),
{
    let mut line = String::new();
    line.append("cargo:rerun-if-changed=");
    line.append(path);
    line
}

/// Join a relative path onto a directory, as [`joined_path`] says.
pub fn join_path(dir: &str, rel: &str) -> (r: String)
    ensures
        r@ == joined_path(dir@, rel@),
{
    let n = dir.unicode_len();
    if n == 0 {
        String::from_str(rel)
    } else if dir.get_char(n - 1) == '/' {
        let mut p = String::from_str(dir);
        p.append(rel);
        p
    } else {
        let mut p = String::from_str(dir);
        p.append("/");
        p.append(rel);
        proof {
            assert("/"@ =~= seq!['/']) by {
                reveal_strlit("/");
            }
        }
        p
    }
}

/// One external command: the program to run and its arguments, in order.
#[derive(Debug)]
pub struct CommandSpec {
    pub program: String,
    pub args: Vec<String>,
}

/// Everything the unverified shell needs to run one build, computed up front.
#[derive(Debug)]
pub struct BuildPlan {
    /// One dependency-registration line per path the manifest references,
    /// each joined onto the source directory, in document order.  Emitted
    /// before anything else runs.
    pub dependency_lines: Vec<String>,
    /// The resource-compiler invocation that materializes the generated
    /// C source.
    pub generate_command: CommandSpec,
    /// The flags-query invocation whose standard output becomes the
    /// compiler-flags override.
    pub flags_command: CommandSpec,
    /// The path of the generated C source file.
    pub source_path: String,
    /// The name of the linkable unit compiled from it.
    pub unit_name: String,
    /// Dependency-registration lines emitted last: one for the manifest
    /// itself, one for the build recipe that configures this run.
    pub final_lines: Vec<String>,
}

/// What a successful plan holds, given the configuration, the output
/// directory and the scanned manifest paths.
pub open spec fn plan_matches(
    plan: BuildPlan,
    res: Resource,
    out_dir: Seq<char>,
    paths: Seq<Seq<char>>,
) -> bool {
    let stem = definition_stem(res.definition_file@);
    &&& plan.dependency_lines.deep_view() == Seq::new(
        paths.len(),
        |k: int| dep_line(joined_path(res.src_dir@, paths[k])),
    )
    &&& plan.generate_command.program@ == "glib-compile-resources"@
    &&& plan.generate_command.args.deep_view() == seq![
        "--generate-source"@,
        res.definition_file@,
        "--sourcedir="@ + res.src_dir@,
        "--target="@ + joined_path(out_dir, stem + ".c"@),
    ]
    &&& plan.flags_command.program@ == "pkg-config"@
    &&& plan.flags_command.args.deep_view() == seq![
        "--cflags"@,
        "--static"@,
        "--libs"@,
        "gio-2.0"@,
    ]
    &&& plan.source_path@ == joined_path(out_dir, stem + ".c"@)
    &&& plan.unit_name@ == stem
    &&& plan.final_lines.deep_view() == seq![
        dep_line(res.definition_file@),
        dep_line("build.rs"@),
    ]
}

/// Plan one build.  Succeeds exactly when the manifest scans, and then every
/// derived artifact is as [`plan_matches`] says; a malformed manifest is the
/// scanner's fatal error, unchanged.
pub fn plan_build(res: &Resource, out_dir: &str, manifest: &[u8]) -> (r: Result<
    BuildPlan,
    ParseError,
>)
    requires
        valid_definition_path(res.definition_file@),
    ensures
        match r {
            Ok(plan) => scan_spec(manifest@) is Ok && plan_matches(
                plan,
                *res,
                out_dir@,
                scan_spec(manifest@)->Ok_0,
            ),
            Err(e) => scan_spec(manifest@) == Err::<Seq<Seq<char>>, (int, ScanErrorKind)>(
                (e.position as int, e.kind),
            ),
        },
{
    let paths = match scan_manifest(manifest) {
        Err(e) => {
            return Err(e);
        },
        Ok(paths) => paths,
    };
    let ghost pv = paths.deep_view();

    let mut dependency_lines: Vec<String> = Vec::new();
    let mut k: usize = 0;
    while k < paths.len()
        invariant
            0 <= k <= paths@.len(),
            pv == paths.deep_view(),
            pv.len() == paths@.len(),
            dependency_lines.deep_view() == Seq::new(
                k as nat,
                |m: int| dep_line(joined_path(res.src_dir@, pv[m])),
            ),
        decreases paths@.len() - k,
    {
        let joined = join_path(res.src_dir.as_str(), paths[k].as_str());
        let line = dependency_line(joined.as_str());
        proof {
            assert(paths@[k as int]@ == pv[k as int]);
            assert(line@ == dep_line(joined_path(res.src_dir@, pv[k as int])));
        }
        let ghost prev_v = dependency_lines@;
        let ghost prev_dv = dependency_lines.deep_view();
        dependency_lines.push(line);
        proof {
            assert(prev_dv.len() == prev_v.len());
            assert(prev_dv.len() == k as int);
            assert(dependency_lines@ == prev_v.push(line));
            assert forall|m: int| 0 <= m < k as int implies dependency_lines.deep_view()[m]
                == prev_dv[m] by {
                assert(dependency_lines@[m] == prev_v[m]);
            }
            assert(dependency_lines.deep_view()[k as int] == line@);
            assert(dependency_lines.deep_view().len() == k + 1);
            assert forall|m: int| 0 <= m < k as int implies dependency_lines.deep_view()[m]
                == dep_line(joined_path(res.src_dir@, pv[m])) by {
                assert(prev_dv[m] == Seq::new(
                    k as nat,
                    |mm: int| dep_line(joined_path(res.src_dir@, pv[mm])),
                )[m]);
            }
            assert(dependency_lines.deep_view() =~= Seq::new(
                (k + 1) as nat,
                |m: int| dep_line(joined_path(res.src_dir@, pv[m])),
            ));
        }
        k += 1;
    }

    let stem = res.base_name();

    let mut cfile = stem.clone();
    cfile.append(".c");
    let source_path = join_path(out_dir, cfile.as_str());

    let mut sourcedir_arg = String::from_str("--sourcedir=");
    sourcedir_arg.append(res.src_dir.as_str());
    let mut target_arg = String::from_str("--target=");
    target_arg.append(source_path.as_str());
    let mut gen_args: Vec<String> = Vec::new();
    gen_args.push("--generate-source".to_owned());
    gen_args.push(res.definition_file.clone());
    gen_args.push(sourcedir_arg);
    gen_args.push(target_arg);
    let generate_command = CommandSpec {
        program: "glib-compile-resources".to_owned(),
        args: gen_args,
    };

    let mut flags_args: Vec<String> = Vec::new();
    flags_args.push("--cflags".to_owned());
    flags_args.push("--static".to_owned());
    flags_args.push("--libs".to_owned());
    flags_args.push("gio-2.0".to_owned());
    let flags_command = CommandSpec { program: "pkg-config".to_owned(), args: flags_args };

    let mut final_lines: Vec<String> = Vec::new();
    final_lines.push(dependency_line(res.definition_file.as_str()));
    final_lines.push(dependency_line("build.rs"));

    let plan = BuildPlan {
        dependency_lines,
        generate_command,
        flags_command,
        source_path,
        unit_name: stem,
        final_lines,
    };
    proof {
        assert(plan.generate_command.args.deep_view() =~= seq![
            "--generate-source"@,
            res.definition_file@,
            "--sourcedir="@ + res.src_dir@,
            "--target="@ + joined_path(out_dir@, definition_stem(res.definition_file@) + ".c"@),
        ]);
        assert(plan.flags_command.args.deep_view() =~= seq![
            "--cflags"@,
            "--static"@,
            "--libs"@,
            "gio-2.0"@,
        ]);
        assert(plan.final_lines.deep_view() =~= seq![
            dep_line(res.definition_file@),
            dep_line("build.rs"@),
        ]);
        assert(cfile@ == definition_stem(res.definition_file@) + ".c"@);
    }
    Ok(plan)
}

/// A change to the ambient compiler-flags variable: set it to a value, or
/// remove it.
#[derive(Debug)]
pub enum EnvAction {
    Assign(String),
    Remove,
}

/// The variable's value after one action is applied, whatever it held
/// before: both actions overwrite the previous state completely.
pub open spec fn env_after(before: Option<Seq<char>>, a: EnvAction) -> Option<Seq<char>> {
    match a {
        EnvAction::Assign(v) => Some(v@),
        EnvAction::Remove => None,
    }
}

/// The value of a captured variable state, as a sequence of characters.
pub open spec fn captured_value(prior: Option<String>) -> Option<Seq<char>> {
    match prior {
        Some(s) => Some(s@),
        None => None,
    }
}

/// The action that puts the variable back into its captured prior state:
/// set it again if it was present, remove it if it was absent.
pub fn restore_action(prior: Option<String>) -> (r: EnvAction)
    ensures
        forall|before: Option<Seq<char>>| env_after(before, r) == captured_value(prior),
{
    match prior {
        Some(v) => EnvAction::Assign(v),
        None => EnvAction::Remove,
    }
}

/// The variable's value after one action, as a plain value: the model the
/// unverified shell follows when it applies the action to the real
/// environment.
pub fn apply_action_value(before: Option<String>, a: &EnvAction) -> (r: Option<String>)
    ensures
        captured_value(r) == env_after(captured_value(before), *a),
{
    match a {
        EnvAction::Assign(v) => Some(v.clone()),
        EnvAction::Remove => None,
    }
}

/// Restoration: after overriding the compiler-flags variable with the
/// queried flags and then applying the restore action for its captured prior
/// value, the variable holds exactly its prior value again — whether it was
/// previously set or unset.
pub proof fn lemma_flags_restored(
    before: Option<Seq<char>>,
    override_act: EnvAction,
    restore_act: EnvAction,
)
    requires
        forall|b: Option<Seq<char>>| env_after(b, restore_act) == before,
    ensures
        env_after(env_after(before, override_act), restore_act) == before,
{
}

} // verus!
