//! The decisions of the command line tool: which script each `emit` action
//! prints, what the profile commands report, how a yes/no answer is read,
//! and how the configuration directory is added to a `PATH` value.
use vstd::prelude::*;

use crate::config::{find_index, find_project, projects_view, Config, Project};
use crate::env_map::EnvMap;
use crate::render::{render_script, script_for, strings_view, ScriptPlan, ShellKind};
use crate::text::{
    eq_ignore_ascii_case, index_of_in, lemma_first_index_of_unique, split_char,
    split_from, strip_bounds, to_chars, trim, ranges_eq_ignore_ascii_case, TrimClass,
    lemma_split_from_suffix, push_char,
};
use crate::wrapper::{powershell_wrapper, render_powershell_wrapper_script};

verus! {

/// An action that a shell does not support.
#[derive(Clone, Copy, Debug, PartialEq, Eq, Structural)]
pub enum ShellError {
    /// `cmd` has no `init` script; its wrappers are installed as files.
    CmdInitUnsupported,
    /// `cmd` has no profile.
    CmdProfileUnsupported,
}

impl ShellError {
    /// The message that describes the error.
    pub fn message(&self) -> (m: String)
        ensures
            m@ == match self {
                ShellError::CmdInitUnsupported =>
                    "cmd init is not supported; use `ezcli emit --shell cmd install-wrapper` instead"@,
                ShellError::CmdProfileUnsupported =>
                    "cmd has no profile support; use `ezcli emit --shell cmd install-wrapper` instead"@,
            },
    {
        match self {
            ShellError::CmdInitUnsupported => {
                let mut m = String::new();
                m.append(
                    "cmd init is not supported; use `ezcli emit --shell cmd install-wrapper` instead",
                );
                m
            },
            ShellError::CmdProfileUnsupported => {
                let mut m = String::new();
                m.append(
                    "cmd has no profile support; use `ezcli emit --shell cmd install-wrapper` instead",
                );
                m
            },
        }
    }
}

/// The script of `emit load-cl`: set each captured variable.
pub fn build_load_cl_script(shell: ShellKind, captured: EnvMap) -> (r: String)
    ensures
        r@ == script_for(shell, captured.entries(), Seq::empty(), None),
{
    let plan = ScriptPlan { set_env: captured, prepend_path: Vec::new(), cwd: None };
    proof {
        assert(strings_view(plan.prepend_path@) =~= Seq::<Seq<char>>::empty());
    }
    render_script(shell, &plan)
}

/// The script of `emit enter-project`: put the project directory in front of
/// `PATH` and change into it.
pub fn build_enter_project_script(shell: ShellKind, project: &Project) -> (r: String)
    ensures
        r@ == script_for(shell, Seq::empty(), seq![project.path@], Some(project.path@)),
{
    let mut paths: Vec<String> = Vec::new();
    paths.push(project.path.clone());
    let plan = ScriptPlan { set_env: EnvMap::new(), prepend_path: paths, cwd: Some(project.path.clone()) };
    proof {
        assert(strings_view(plan.prepend_path@) =~= seq![project.path@]);
    }
    render_script(shell, &plan)
}

/// The script of `emit enter-project <name>` for the projects in `config`;
/// `None` when no project has that name.
pub fn enter_project_script(shell: ShellKind, config: &Config, name: &str) -> (r: Option<String>)
    ensures
        match find_index(projects_view(config.projects@), name@) {
            Some(i) => r matches Some(s) && s@ == script_for(
                shell,
                Seq::empty(),
                seq![config.projects@[i].path@],
                Some(config.projects@[i].path@),
            ),
            None => r is None,
        },
{
    match find_project(config, name) {
        Some(project) => Some(build_enter_project_script(shell, project)),
        None => None,
    }
}

/// The script of `emit init`: the PowerShell wrapper for the program at
/// `program`; `cmd` has none.
pub fn build_init_script(shell: ShellKind, program: &str) -> (r: Result<String, ShellError>)
    ensures
        match shell {
            ShellKind::Powershell => r matches Ok(s) && s@ == powershell_wrapper(program@),
            ShellKind::Cmd => r == Err::<String, ShellError>(ShellError::CmdInitUnsupported),
        },
{
    match shell {
        ShellKind::Powershell => Ok(render_powershell_wrapper_script(program)),
        ShellKind::Cmd => Err(ShellError::CmdInitUnsupported),
    }
}

/// The text of `emit show-profile`: where the PowerShell profile is and which
/// line loads the wrapper; `cmd` has no profile.
pub fn show_profile(shell: ShellKind, profile_path: &str, source_line: &str) -> (r: Result<
    String,
    ShellError,
>)
    ensures
        match shell {
            ShellKind::Powershell => r matches Ok(s) && s@ == "profile path: "@ + profile_path@
                + "\nsource line: "@ + source_line@,
            ShellKind::Cmd => r == Err::<String, ShellError>(ShellError::CmdProfileUnsupported),
        },
{
    match shell {
        ShellKind::Powershell => {
            let mut s = String::new();
            s.append("profile path: ");
            s.append(profile_path);
            s.append("\nsource line: ");
            s.append(source_line);
            Ok(s)
        },
        ShellKind::Cmd => Err(ShellError::CmdProfileUnsupported),
    }
}

/// The text of `emit install-profile` once the profile was checked: whether
/// the line was added (`changed`) or was there already; `cmd` has no profile.
pub fn install_profile_report(shell: ShellKind, changed: bool, profile_path: &str) -> (r: Result<
    String,
    ShellError,
>)
    ensures
        match shell {
            ShellKind::Powershell => r matches Ok(s) && s@ == (if changed {
                "powershell profile updated: "@
            } else {
                "powershell profile already configured: "@
            }) + profile_path@,
            ShellKind::Cmd => r == Err::<String, ShellError>(ShellError::CmdProfileUnsupported),
        },
{
    match shell {
        ShellKind::Powershell => {
            let mut s = String::new();
            if changed {
                s.append("powershell profile updated: ");
            } else {
                s.append("powershell profile already configured: ");
            }
            s.append(profile_path);
            Ok(s)
        },
        ShellKind::Cmd => Err(ShellError::CmdProfileUnsupported),
    }
}

/// How a line typed at a yes/no prompt reads: `y` (either case) is yes, `n`
/// (either case) is no, around any whitespace; anything else asks again.
pub open spec fn answer_of(input: Seq<char>) -> Option<bool> {
    let t = trim(input);
    if t == seq!['y'] || t == seq!['Y'] {
        Some(true)
    } else if t == seq!['n'] || t == seq!['N'] {
        Some(false)
    } else {
        None
    }
}

/// Reads a yes/no answer: `Some(true)` for yes, `Some(false)` for no,
/// `None` when the prompt must be repeated.
pub fn confirm_answer(input: &str) -> (r: Option<bool>)
    ensures
        r == answer_of(input@),
{
    let cs = to_chars(input);
    let (a, b) = strip_bounds(&cs, 0, cs.len(), TrimClass::Whitespace);
    proof {
        assert(cs@.subrange(0, cs@.len() as int) =~= input@);
    }
    let ghost t = cs@.subrange(a as int, b as int);
    assert(t == trim(input@));
    if b - a == 1 {
        let c = cs[a];
        assert(t =~= seq![c]);
        if c == 'y' || c == 'Y' {
            assert(t =~= seq!['y'] || t =~= seq!['Y']);
            Some(true)
        } else if c == 'n' || c == 'N' {
            assert(t =~= seq!['n'] || t =~= seq!['N']);
            Some(false)
        } else {
            assert(t != seq!['y'] && t != seq!['Y'] && t != seq!['n'] && t != seq!['N']) by {
                assert(seq!['y'][0] == 'y');
                assert(seq!['Y'][0] == 'Y');
                assert(seq!['n'][0] == 'n');
                assert(seq!['N'][0] == 'N');
            }
            None
        }
    } else {
        assert(t.len() != 1);
        assert(seq!['y'].len() == 1 && seq!['Y'].len() == 1 && seq!['n'].len() == 1 && seq![
            'N',
        ].len() == 1);
        None
    }
}

/// A `PATH` value with `dir` added at the end: `None` when one of its
/// `;`-separated entries already is `dir` ignoring ASCII case; otherwise
/// `dir` alone when the value is empty, else the value, `;` and `dir`.
pub open spec fn path_with_dir(current: Seq<char>, dir: Seq<char>) -> Option<Seq<char>> {
    if exists|i: int|
        0 <= i < split_char(current, ';').len() && eq_ignore_ascii_case(
            #[trigger] split_char(current, ';')[i],
            dir,
        ) {
        None
    } else if current.len() == 0 {
        Some(dir)
    } else {
        Some(current + seq![';'] + dir)
    }
}

/// `current` with `dir` added as a `PATH` entry, or `None` when it has the entry.
pub fn extend_path_value(current: &str, dir: &str) -> (r: Option<String>)
    ensures
        match r {
            Some(s) => path_with_dir(current@, dir@) == Some(s@),
            None => path_with_dir(current@, dir@) is None,
        },
{
    let cs = to_chars(current);
    let ds = to_chars(dir);
    let n = cs.len();
    let mut i: usize = 0;
    let ghost mut seen: Seq<Seq<char>> = Seq::empty();
    loop
        invariant_except_break
            seen + split_from(cs@, ';', i as int) == split_char(cs@, ';'),
            forall|k: int| 0 <= k < seen.len() ==> !eq_ignore_ascii_case(#[trigger] seen[k], ds@),
        invariant
            n == cs.len(),
            cs@ == current@,
            ds@ == dir@,
            0 <= i <= n,
        ensures
            forall|k: int|
                0 <= k < split_char(cs@, ';').len() ==> !eq_ignore_ascii_case(
                    #[trigger] split_char(cs@, ';')[k],
                    ds@,
                ),
        decreases n - i,
    {
        let e = index_of_in(&cs, ';', i, n);
        proof {
            lemma_first_index_of_unique(cs@, ';', i as int, e as int);
        }
        let ghost piece = cs@.subrange(i as int, e as int);
        let ghost rest = if e >= n {
            Seq::<Seq<char>>::empty()
        } else {
            split_from(cs@, ';', e + 1)
        };
        assert(split_from(cs@, ';', i as int) == seq![piece] + rest);
        if ranges_eq_ignore_ascii_case(&cs, i, e, &ds, 0, ds.len()) {
            proof {
                assert(ds@.subrange(0, ds@.len() as int) =~= ds@);
                let all = split_char(cs@, ';');
                assert(all[seen.len() as int] == (seen + (seq![piece] + rest))[seen.len() as int]);
            }
            assert(ds@.subrange(0, ds@.len() as int) =~= ds@);
            return None;
        }
        assert(ds@.subrange(0, ds@.len() as int) =~= ds@);
        proof {
            assert(seen.push(piece) + rest =~= seen + (seq![piece] + rest));
            seen = seen.push(piece);
        }
        if e >= n {
            proof {
                assert(seen =~= split_char(cs@, ';'));
                assert forall|k: int| 0 <= k < split_char(cs@, ';').len() implies !eq_ignore_ascii_case(
                    #[trigger] split_char(cs@, ';')[k],
                    ds@,
                ) by {
                    assert(seen[k] == split_char(cs@, ';')[k]);
                }
            }
            break;
        }
        i = e + 1;
    }
    if n == 0 {
        Some(dir.to_string())
    } else {
        let mut s = current.to_string();
        push_char(&mut s, ';');
        s.append(dir);
        Some(s)
    }
}

/// Adding the configuration directory to `PATH` twice changes it once: after
/// it was added, the value has it. The directory must hold no `;`.
pub proof fn law_path_extend_idempotent(current: Seq<char>, dir: Seq<char>)
    requires
        !dir.contains(';'),
    ensures
        path_with_dir(current, dir) matches Some(updated) ==> path_with_dir(updated, dir) is None,
{
    if let Some(updated) = path_with_dir(current, dir) {
        let j: int = if current.len() == 0 {
            0
        } else {
            current.len() + 1int
        };
        assert(updated.subrange(j, updated.len() as int) =~= dir);
        assert(j > 0 ==> updated[j - 1] == ';');
        lemma_split_from_suffix(updated, ';', 0, j);
        let pre = choose|pre: Seq<Seq<char>>|
            split_from(updated, ';', 0) == pre + split_from(updated, ';', j);
        assert forall|k: int| j <= k < updated.len() implies updated[k] != ';' by {
            assert(updated[k] == dir[k - j]);
        }
        lemma_first_index_of_unique(updated, ';', j, updated.len() as int);
        assert(split_from(updated, ';', j)[0] == dir);
        assert(split_char(updated, ';')[pre.len() as int] == dir);
        assert(eq_ignore_ascii_case(split_char(updated, ';')[pre.len() as int], dir));
    }
}

/// `s` ends with `suffix`.
pub open spec fn ends_with(s: Seq<char>, suffix: Seq<char>) -> bool {
    s.len() >= suffix.len() && s.subrange(s.len() - suffix.len(), s.len() as int) == suffix
}

/// Whether the chosen file is a `vcvarsall.bat`: its path ends with that name.
pub fn is_vcvarsall_path(path: &str) -> (r: bool)
    ensures
        r == ends_with(path@, "vcvarsall.bat"@),
{
    let cs = to_chars(path);
    let suffix = to_chars("vcvarsall.bat");
    if cs.len() < suffix.len() {
        return false;
    }
    let start = cs.len() - suffix.len();
    let mut i: usize = 0;
    while i < suffix.len()
        invariant
            cs@ == path@,
            suffix@ == "vcvarsall.bat"@,
            start + suffix.len() == cs.len(),
            0 <= i <= suffix.len(),
            forall|k: int| 0 <= k < i ==> cs@[start + k] == suffix@[k],
        decreases suffix.len() - i,
    {
        if cs[start + i] != suffix[i] {
            assert(cs@.subrange(start as int, cs.len() as int)[i as int] != suffix@[i as int]);
            return false;
        }
        i = i + 1;
    }
    assert(cs@.subrange(start as int, cs.len() as int) =~= suffix@);
    true
}

/// The `cmd.exe` command line that opens a new `cmd` session with the `cl`
/// environment: it calls `vcvarsall.bat` for `arch`, after Cmder's
/// `init.bat` when running inside Cmder.
pub open spec fn load_cl_command(vc_path: Seq<char>, arch: Seq<char>, in_cmder: bool) -> Seq<char> {
    if in_cmder {
        "/s /k \"call \"%ConEmuDir%\\..\\init.bat\" && call \""@ + vc_path + "\" "@ + arch + "\""@
    } else {
        "/s /k \"call \""@ + vc_path + "\" "@ + arch + "\""@
    }
}

/// The command line of `--load-cl`.
pub fn load_cl_command_line(vc_path: &str, arch: &str, in_cmder: bool) -> (r: String)
    ensures
        r@ == load_cl_command(vc_path@, arch@, in_cmder),
{
    let mut r = String::new();
    if in_cmder {
        r.append("/s /k \"call \"%ConEmuDir%\\..\\init.bat\" && call \"");
    } else {
        r.append("/s /k \"call \"");
    }
    r.append(vc_path);
    r.append("\" ");
    r.append(arch);
    r.append("\"");
    r
}

} // verus!
