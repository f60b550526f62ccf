//! The shell wrappers: scripts that run `ezcli emit` and make the current
//! PowerShell or `cmd` session execute what it prints, and the line that
//! loads the PowerShell wrapper from the user's profile.
use vstd::prelude::*;

use crate::render::{ps_quote, ps_quoted};
use crate::text::{
    index_of_in, lemma_first_index_of_unique, lemma_lines_from_suffix, lemma_strip_both_ends, line_at, lines,
    lines_from, push_char, strip_bounds, to_chars, trim, TrimClass,
};

verus! {

// ---------------------------------------------------------------------------
// PowerShell wrapper
// ---------------------------------------------------------------------------

/// The PowerShell wrapper: functions `ezcli-load-cl` and `ezcli-enter-project`
/// that run the program at `program` and evaluate what it prints, and the
/// aliases `ecl` and `ep`.
pub open spec fn powershell_wrapper(program: Seq<char>) -> Seq<char> {
    "\nfunction ezcli-load-cl {\n    & '"@ + ps_quoted(program)
        + "' emit --shell powershell load-cl | Invoke-Expression\n    Write-Host \"cl environment loaded\" -ForegroundColor Green\n}\n\nfunction ezcli-enter-project {\n    param(\n        [Parameter(Mandatory = $true)]\n        [string]$Name\n    )\n\n    & '"@
        + ps_quoted(program)
        + "' emit --shell powershell enter-project $Name | Invoke-Expression\n}\nSet-Alias ecl ezcli-load-cl\nSet-Alias ep ezcli-enter-project\n        "@
}

/// The wrapper script for PowerShell, for the program at `program`.
pub fn render_powershell_wrapper_script(program: &str) -> (r: String)
    ensures
        r@ == powershell_wrapper(program@),
{
    let program = ps_quote(program);
    let mut r = String::new();
    r.append("\nfunction ezcli-load-cl {\n    & '");
    r.append(program.as_str());
    r.append(
        "' emit --shell powershell load-cl | Invoke-Expression\n    Write-Host \"cl environment loaded\" -ForegroundColor Green\n}\n\nfunction ezcli-enter-project {\n    param(\n        [Parameter(Mandatory = $true)]\n        [string]$Name\n    )\n\n    & '",
    );
    r.append(program.as_str());
    r.append(
        "' emit --shell powershell enter-project $Name | Invoke-Expression\n}\nSet-Alias ecl ezcli-load-cl\nSet-Alias ep ezcli-enter-project\n        ",
    );
    r
}

/// The profile line that loads the wrapper script at `wrapper_path`.
pub open spec fn profile_source_line(wrapper_path: Seq<char>) -> Seq<char> {
    ". '"@ + ps_quoted(wrapper_path) + "'"@
}

/// The line that dot-sources the PowerShell wrapper saved at `wrapper_path`.
pub fn build_powershell_profile_source_line(wrapper_path: &str) -> (r: String)
    ensures
        r@ == profile_source_line(wrapper_path@),
{
    let quoted = ps_quote(wrapper_path);
    let mut r = String::new();
    r.append(". '");
    r.append(quoted.as_str());
    r.append("'");
    r
}

/// Some line of `content`, trimmed, is `line`.
pub open spec fn has_trimmed_line(content: Seq<char>, line: Seq<char>) -> bool {
    exists|i: int| 0 <= i < lines(content).len() && trim(#[trigger] lines(content)[i]) == line
}

/// The profile text with `line` added: `None` when a line of `content`
/// already is `line` (up to surrounding whitespace); otherwise `content`,
/// ended by a line feed if it is not empty, then `line` and a line feed.
pub open spec fn profile_with_line(content: Seq<char>, line: Seq<char>) -> Option<Seq<char>> {
    if has_trimmed_line(content, line) {
        None
    } else {
        Some(
            (if content.len() > 0 && content.last() != '\n' {
                content.push('\n')
            } else {
                content
            }) + line + seq!['\n'],
        )
    }
}

/// The profile text with the wrapper's source line added, or `None` when the
/// profile already loads the wrapper.
pub fn add_source_line_to_profile(content: &str, source_line: &str) -> (r: Option<String>)
    ensures
        match r {
            Some(s) => profile_with_line(content@, source_line@) == Some(s@),
            None => profile_with_line(content@, source_line@) is None,
        },
{
    let cs = to_chars(content);
    let ls = to_chars(source_line);
    let n = cs.len();
    let mut i: usize = 0;
    let ghost mut seen: Seq<Seq<char>> = Seq::empty();
    while i < n
        invariant
            n == cs.len(),
            cs@ == content@,
            ls@ == source_line@,
            0 <= i <= n,
            seen + lines_from(cs@, i as int) == lines(cs@),
            forall|k: int| 0 <= k < seen.len() ==> trim(#[trigger] seen[k]) != ls@,
        decreases n - i,
    {
        let e = index_of_in(&cs, '\n', i, n);
        proof {
            lemma_first_index_of_unique(cs@, '\n', i as int, e as int);
        }
        let le = if e < n && e > i && cs[e - 1] == '\r' {
            e - 1
        } else {
            e
        };
        let ghost line = cs@.subrange(i as int, le as int);
        assert(line == line_at(cs@, i as int));
        assert(lines_from(cs@, i as int) == seq![line] + lines_from(cs@, e + 1));
        let (a, b) = strip_bounds(&cs, i, le, TrimClass::Whitespace);
        let mut same = b - a == ls.len();
        let mut j: usize = 0;
        while same && j < ls.len()
            invariant
                a <= b <= cs.len(),
                same ==> b - a == ls.len(),
                same ==> forall|k: int| 0 <= k < j ==> cs@[a + k] == ls@[k],
                !same ==> cs@.subrange(a as int, b as int) != ls@,
                0 <= j <= ls.len(),
            decreases ls.len() - j, if same {
                1int
            } else {
                0int
            },
        {
            if cs[a + j] != ls[j] {
                same = false;
                assert(cs@.subrange(a as int, b as int)[j as int] != ls@[j as int]);
            } else {
                j = j + 1;
            }
        }
        if same {
            assert(cs@.subrange(a as int, b as int) =~= ls@);
            proof {
                let all = lines(cs@);
                assert(all[seen.len() as int] == (seen + lines_from(cs@, i as int))[seen.len() as int]);
                assert(trim(all[seen.len() as int]) == ls@);
            }
            return None;
        }
        proof {
            assert(seen.push(line) + lines_from(cs@, e + 1) =~= seen + (seq![line] + lines_from(
                cs@,
                e + 1,
            )));
            seen = seen.push(line);
        }
        if e >= n {
            i = n;
        } else {
            i = e + 1;
        }
    }
    proof {
        assert(seen =~= lines(cs@));
        assert forall|k: int| 0 <= k < lines(cs@).len() implies trim(#[trigger] lines(cs@)[k])
            != ls@ by {
            assert(seen[k] == lines(cs@)[k]);
        }
    }
    let mut out = content.to_string();
    if n > 0 && cs[n - 1] != '\n' {
        push_char(&mut out, '\n');
    }
    out.append(source_line);
    push_char(&mut out, '\n');
    Some(out)
}

/// Installing the wrapper's line into the profile twice changes it once: after
/// the line was added, the profile has it. The line must be trimmed and have
/// no line feed, as the source line built for a wrapper path without line
/// breaks is.
pub proof fn law_profile_install_idempotent(content: Seq<char>, line: Seq<char>)
    requires
        trim(line) == line,
        !line.contains('\n'),
    ensures
        profile_with_line(content, line) matches Some(updated) ==> profile_with_line(updated, line)
            is None,
{
    if let Some(updated) = profile_with_line(content, line) {
        let base = if content.len() > 0 && content.last() != '\n' {
            content.push('\n')
        } else {
            content
        };
        assert(updated == base + line + seq!['\n']);
        let j = base.len() as int;
        assert(updated.subrange(0, j) =~= base);
        assert(j > 0 ==> updated[j - 1] == '\n') by {
            if j > 0 {
                assert(updated[j - 1] == base[j - 1]);
            }
        }
        lemma_lines_from_suffix(updated, 0, j);
        let pre = choose|pre: Seq<Seq<char>>| lines_from(updated, 0) == pre + lines_from(updated, j);
        let e = j + line.len();
        assert forall|k: int| j <= k < e implies updated[k] != '\n' by {
            assert(updated[k] == line[k - j]);
        }
        assert(updated[e] == '\n');
        lemma_first_index_of_unique(updated, '\n', j, e);
        lemma_strip_both_ends(line, TrimClass::Whitespace);
        if line.len() > 0 {
            assert(updated[e - 1] == line.last());
        }
        assert(line_at(updated, j) =~= line);
        assert(lines_from(updated, j)[0] == line);
        assert(lines(updated)[pre.len() as int] == line);
        assert(trim(lines(updated)[pre.len() as int]) == line);
    }
}

// ---------------------------------------------------------------------------
// cmd wrappers
// ---------------------------------------------------------------------------

/// Every character is ASCII.
pub open spec fn is_ascii_text(s: Seq<char>) -> bool {
    forall|i: int| 0 <= i < s.len() ==> (#[trigger] s[i] as int) < 128
}

/// A `cmd` wrapper: it runs `ezcli emit --shell cmd <action> --output <tmp><extra_args>`,
/// which writes the script into a temporary file named after `temp_stem`, calls
/// that script unless `ezcli` failed, optionally reports that the `cl`
/// environment is loaded, and removes the temporary file. Lines end in CR LF.
/// `ezcli` is run by name, so the wrapper holds no path of the installation.
pub open spec fn cmd_wrapper(
    action: Seq<char>,
    extra_args: Seq<char>,
    temp_stem: Seq<char>,
    announce: bool,
) -> Seq<char> {
    "@echo off\r\nset \"EZCLI_WRAPPER_TMP=%TEMP%\\"@ + temp_stem
        + "-%RANDOM%%RANDOM%.cmd\"\r\nezcli emit --shell cmd "@ + action
        + " --output \"%EZCLI_WRAPPER_TMP%\""@ + extra_args
        + "\r\nif errorlevel 1 goto :cleanup\r\ncall \"%EZCLI_WRAPPER_TMP%\"\r\n"@ + (if announce {
        "echo cl environment loaded\r\n"@
    } else {
        Seq::empty()
    }) + ":cleanup\r\nif exist \"%EZCLI_WRAPPER_TMP%\" del \"%EZCLI_WRAPPER_TMP%\"\r\nset \"EZCLI_WRAPPER_TMP=\"\r\n"@
}

/// A concatenation of ASCII texts is ASCII.
proof fn lemma_ascii_add(a: Seq<char>, b: Seq<char>)
    requires
        is_ascii_text(a),
        is_ascii_text(b),
    ensures
        is_ascii_text(a + b),
{
    assert forall|i: int| 0 <= i < (a + b).len() implies (#[trigger] (a + b)[i] as int) < 128 by {
        if i < a.len() {
            assert((a + b)[i] == a[i]);
        } else {
            assert((a + b)[i] == b[i - a.len()]);
        }
    }
}

/// The fixed parts of a `cmd` wrapper are ASCII, and so is the whole wrapper
/// when its action, arguments and stem are.
proof fn lemma_cmd_wrapper_ascii(action: Seq<char>, extra_args: Seq<char>, temp_stem: Seq<char>, announce: bool)
    requires
        is_ascii_text(action),
        is_ascii_text(extra_args),
        is_ascii_text(temp_stem),
    ensures
        is_ascii_text(cmd_wrapper(action, extra_args, temp_stem, announce)),
{
    reveal_strlit("@echo off\r\nset \"EZCLI_WRAPPER_TMP=%TEMP%\\");
    reveal_strlit("-%RANDOM%%RANDOM%.cmd\"\r\nezcli emit --shell cmd ");
    reveal_strlit(" --output \"%EZCLI_WRAPPER_TMP%\"");
    reveal_strlit("\r\nif errorlevel 1 goto :cleanup\r\ncall \"%EZCLI_WRAPPER_TMP%\"\r\n");
    reveal_strlit("echo cl environment loaded\r\n");
    reveal_strlit(
        ":cleanup\r\nif exist \"%EZCLI_WRAPPER_TMP%\" del \"%EZCLI_WRAPPER_TMP%\"\r\nset \"EZCLI_WRAPPER_TMP=\"\r\n",
    );
    let p1 = "@echo off\r\nset \"EZCLI_WRAPPER_TMP=%TEMP%\\"@;
    let p2 = "-%RANDOM%%RANDOM%.cmd\"\r\nezcli emit --shell cmd "@;
    let p3 = " --output \"%EZCLI_WRAPPER_TMP%\""@;
    let p4 = "\r\nif errorlevel 1 goto :cleanup\r\ncall \"%EZCLI_WRAPPER_TMP%\"\r\n"@;
    let p5 = if announce {
        "echo cl environment loaded\r\n"@
    } else {
        Seq::empty()
    };
    let p6 = ":cleanup\r\nif exist \"%EZCLI_WRAPPER_TMP%\" del \"%EZCLI_WRAPPER_TMP%\"\r\nset \"EZCLI_WRAPPER_TMP=\"\r\n"@;
    assert(is_ascii_text(p1));
    assert(is_ascii_text(p2));
    assert(is_ascii_text(p3));
    assert(is_ascii_text(p4));
    assert(is_ascii_text(p5));
    assert(is_ascii_text(p6));
    lemma_ascii_add(p1, temp_stem);
    lemma_ascii_add(p1 + temp_stem, p2);
    lemma_ascii_add(p1 + temp_stem + p2, action);
    lemma_ascii_add(p1 + temp_stem + p2 + action, p3);
    lemma_ascii_add(p1 + temp_stem + p2 + action + p3, extra_args);
    lemma_ascii_add(p1 + temp_stem + p2 + action + p3 + extra_args, p4);
    lemma_ascii_add(p1 + temp_stem + p2 + action + p3 + extra_args + p4, p5);
    lemma_ascii_add(p1 + temp_stem + p2 + action + p3 + extra_args + p4 + p5, p6);
}

/// The wrapper for `action` with `extra_args`, named after `temp_stem`.
fn cmd_wrapper_text(action: &str, extra_args: &str, temp_stem: &str, announce: bool) -> (r: String)
    ensures
        r@ == cmd_wrapper(action@, extra_args@, temp_stem@, announce),
{
    let mut r = String::new();
    r.append("@echo off\r\nset \"EZCLI_WRAPPER_TMP=%TEMP%\\");
    r.append(temp_stem);
    r.append("-%RANDOM%%RANDOM%.cmd\"\r\nezcli emit --shell cmd ");
    r.append(action);
    r.append(" --output \"%EZCLI_WRAPPER_TMP%\"");
    r.append(extra_args);
    r.append("\r\nif errorlevel 1 goto :cleanup\r\ncall \"%EZCLI_WRAPPER_TMP%\"\r\n");
    let ghost before = r@;
    if announce {
        r.append("echo cl environment loaded\r\n");
    } else {
        assert(r@ =~= before + Seq::<char>::empty());
    }
    r.append(
        ":cleanup\r\nif exist \"%EZCLI_WRAPPER_TMP%\" del \"%EZCLI_WRAPPER_TMP%\"\r\nset \"EZCLI_WRAPPER_TMP=\"\r\n",
    );
    r
}

/// A `cmd` wrapper for `action` with `extra_args`, through a temporary script
/// named after `temp_stem`.
fn render_cmd_wrapper_script(action: &str, extra_args: &str, temp_stem: &str) -> (r: String)
    ensures
        r@ == cmd_wrapper(action@, extra_args@, temp_stem@, false),
{
    cmd_wrapper_text(action, extra_args, temp_stem, false)
}

/// The `ezcli-load-cl.cmd` wrapper. It runs `ezcli` by name, whatever
/// `program` is, so that the text is ASCII for any installation path.
pub fn render_cmd_load_cl_wrapper_script(program: &str) -> (r: String)
    ensures
        r@ == cmd_wrapper("load-cl"@, ""@, "ezcli-load-cl"@, true),
        is_ascii_text(r@),
{
    proof {
        reveal_strlit("load-cl");
        reveal_strlit("");
        reveal_strlit("ezcli-load-cl");
        lemma_cmd_wrapper_ascii("load-cl"@, ""@, "ezcli-load-cl"@, true);
    }
    cmd_wrapper_text("load-cl", "", "ezcli-load-cl", true)
}

/// The `ezcli-enter-project.cmd` wrapper. It runs `ezcli` by name, whatever
/// `program` is, so that the text is ASCII for any installation path.
pub fn render_cmd_enter_project_wrapper_script(program: &str) -> (r: String)
    ensures
        r@ == cmd_wrapper("enter-project"@, " %*"@, "ezcli-enter-project"@, false),
        is_ascii_text(r@),
{
    proof {
        reveal_strlit("enter-project");
        reveal_strlit(" %*");
        reveal_strlit("ezcli-enter-project");
        lemma_cmd_wrapper_ascii("enter-project"@, " %*"@, "ezcli-enter-project"@, false);
    }
    render_cmd_wrapper_script("enter-project", " %*", "ezcli-enter-project")
}

/// The `ecl.cmd` wrapper. It runs `ezcli` by name, whatever `program` is, so
/// that the text is ASCII for any installation path.
pub fn render_cmd_ecl_wrapper_script(program: &str) -> (r: String)
    ensures
        r@ == cmd_wrapper("load-cl"@, ""@, "ecl"@, true),
        is_ascii_text(r@),
{
    proof {
        reveal_strlit("load-cl");
        reveal_strlit("");
        reveal_strlit("ecl");
        lemma_cmd_wrapper_ascii("load-cl"@, ""@, "ecl"@, true);
    }
    cmd_wrapper_text("load-cl", "", "ecl", true)
}

/// The `ep.cmd` wrapper. It runs `ezcli` by name, whatever `program` is, so
/// that the text is ASCII for any installation path.
pub fn render_cmd_ep_wrapper_script(program: &str) -> (r: String)
    ensures
        r@ == cmd_wrapper("enter-project"@, " %*"@, "ep"@, false),
        is_ascii_text(r@),
{
    proof {
        reveal_strlit("enter-project");
        reveal_strlit(" %*");
        reveal_strlit("ep");
        lemma_cmd_wrapper_ascii("enter-project"@, " %*"@, "ep"@, false);
    }
    render_cmd_wrapper_script("enter-project", " %*", "ep")
}

/// The text of a `cmd` wrapper up to its temporary-file stem.
pub open spec fn cmd_wrapper_head() -> Seq<char> {
    "@echo off\r\nset \"EZCLI_WRAPPER_TMP=%TEMP%\\"@
}

/// The text of a `cmd` wrapper after its temporary-file stem.
pub open spec fn cmd_wrapper_rest(action: Seq<char>, extra_args: Seq<char>, announce: bool) -> Seq<
    char,
> {
    "-%RANDOM%%RANDOM%.cmd\"\r\nezcli emit --shell cmd "@ + action
        + " --output \"%EZCLI_WRAPPER_TMP%\""@ + extra_args
        + "\r\nif errorlevel 1 goto :cleanup\r\ncall \"%EZCLI_WRAPPER_TMP%\"\r\n"@ + (if announce {
        "echo cl environment loaded\r\n"@
    } else {
        Seq::empty()
    }) + ":cleanup\r\nif exist \"%EZCLI_WRAPPER_TMP%\" del \"%EZCLI_WRAPPER_TMP%\"\r\nset \"EZCLI_WRAPPER_TMP=\"\r\n"@
}

/// A `cmd` wrapper is a fixed head, its temporary-file stem, and a rest that
/// depends only on the action, its arguments and whether it announces.
pub proof fn law_cmd_wrapper_stem(
    action: Seq<char>,
    extra_args: Seq<char>,
    temp_stem: Seq<char>,
    announce: bool,
)
    ensures
        cmd_wrapper(action, extra_args, temp_stem, announce) == cmd_wrapper_head() + temp_stem
            + cmd_wrapper_rest(action, extra_args, announce),
{
    assert(cmd_wrapper(action, extra_args, temp_stem, announce) =~= cmd_wrapper_head() + temp_stem
        + cmd_wrapper_rest(action, extra_args, announce));
}

/// The `ecl` wrapper is the `ezcli-load-cl` wrapper with the temporary-file
/// stem `ecl` in place of `ezcli-load-cl`: the same `load-cl` call and the
/// same "cl environment loaded" line.
pub proof fn law_ecl_is_load_cl_with_its_stem()
    ensures
        cmd_wrapper("load-cl"@, ""@, "ezcli-load-cl"@, true) == cmd_wrapper_head()
            + "ezcli-load-cl"@ + cmd_wrapper_rest("load-cl"@, ""@, true),
        cmd_wrapper("load-cl"@, ""@, "ecl"@, true) == cmd_wrapper_head() + "ecl"@
            + cmd_wrapper_rest("load-cl"@, ""@, true),
{
    law_cmd_wrapper_stem("load-cl"@, ""@, "ezcli-load-cl"@, true);
    law_cmd_wrapper_stem("load-cl"@, ""@, "ecl"@, true);
}

/// The `ep` wrapper is the `ezcli-enter-project` wrapper with the
/// temporary-file stem `ep` in place of `ezcli-enter-project`: the same
/// `enter-project %*` call and no announcement.
pub proof fn law_ep_is_enter_project_with_its_stem()
    ensures
        cmd_wrapper("enter-project"@, " %*"@, "ezcli-enter-project"@, false) == cmd_wrapper_head()
            + "ezcli-enter-project"@ + cmd_wrapper_rest("enter-project"@, " %*"@, false),
        cmd_wrapper("enter-project"@, " %*"@, "ep"@, false) == cmd_wrapper_head() + "ep"@
            + cmd_wrapper_rest("enter-project"@, " %*"@, false),
{
    law_cmd_wrapper_stem("enter-project"@, " %*"@, "ezcli-enter-project"@, false);
    law_cmd_wrapper_stem("enter-project"@, " %*"@, "ep"@, false);
}

} // verus!
