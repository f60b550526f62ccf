//! Rendering a plan of environment changes as a PowerShell or `cmd` script
//! that the current shell session executes.
use vstd::prelude::*;

use crate::env_map::EnvMap;
use crate::text::{join, lemma_join_push, push_char, replace_char, replace_char_exec, to_chars};

verus! {

/// The shells that scripts are rendered for.
#[derive(Clone, Copy, Debug, PartialEq, Eq, Structural)]
pub enum ShellKind {
    Cmd,
    Powershell,
}

/// What a script does to the session: set variables, put directories in
/// front of `PATH`, change the working directory.
pub struct ScriptPlan {
    pub set_env: EnvMap,
    pub prepend_path: Vec<String>,
    pub cwd: Option<String>,
}

impl Default for ScriptPlan {
    /// A plan that changes nothing.
    fn default() -> (p: Self)
        ensures
            p.set_env.entries().len() == 0,
            p.prepend_path@.len() == 0,
            p.cwd is None,
    {
        ScriptPlan { set_env: EnvMap::new(), prepend_path: Vec::new(), cwd: None }
    }
}

impl Clone for ScriptPlan {
    /// A copy of the plan.
    fn clone(&self) -> (p: Self)
        ensures
            p.set_env.entries() == self.set_env.entries(),
            strings_view(p.prepend_path@) == strings_view(self.prepend_path@),
            opt_view(p.cwd) == opt_view(self.cwd),
    {
        let mut paths: Vec<String> = Vec::new();
        let mut i: usize = 0;
        while i < self.prepend_path.len()
            invariant
                0 <= i <= self.prepend_path@.len(),
                strings_view(paths@) =~= strings_view(self.prepend_path@).take(i as int),
            decreases self.prepend_path@.len() - i,
        {
            let ghost before = paths@;
            let c = self.prepend_path[i].clone();
            paths.push(c);
            assert(strings_view(paths@) =~= strings_view(before).push(c@));
            i = i + 1;
            assert(strings_view(paths@) =~= strings_view(self.prepend_path@).take(i as int));
        }
        assert(strings_view(self.prepend_path@).take(self.prepend_path@.len() as int)
            =~= strings_view(self.prepend_path@));
        let cwd = match &self.cwd {
            Some(p) => Some(p.clone()),
            None => None,
        };
        ScriptPlan { set_env: self.set_env.clone(), prepend_path: paths, cwd }
    }
}

// ---------------------------------------------------------------------------
// Specifications
// ---------------------------------------------------------------------------

/// The characters of each string.
pub open spec fn strings_view(v: Seq<String>) -> Seq<Seq<char>> {
    v.map_values(|s: String| s@)
}

/// The characters of an optional string.
pub open spec fn opt_view(o: Option<String>) -> Option<Seq<char>> {
    match o {
        Some(s) => Some(s@),
        None => None,
    }
}

/// A value put between single quotes for PowerShell: each `'` doubled.
pub open spec fn ps_quoted(s: Seq<char>) -> Seq<char> {
    replace_char(s, '\'', "''"@)
}

/// A value put between double quotes for `cmd`: each `"` doubled.
pub open spec fn cmd_quoted(s: Seq<char>) -> Seq<char> {
    replace_char(s, '"', "\"\""@)
}

/// Each value quoted for PowerShell.
pub open spec fn ps_quoted_all(ps: Seq<Seq<char>>) -> Seq<Seq<char>> {
    ps.map_values(|p: Seq<char>| ps_quoted(p))
}

/// Each value quoted for `cmd`.
pub open spec fn cmd_quoted_all(ps: Seq<Seq<char>>) -> Seq<Seq<char>> {
    ps.map_values(|p: Seq<char>| cmd_quoted(p))
}

/// The PowerShell lines that set the variables, in order.
pub open spec fn ps_env_lines(env: Seq<(Seq<char>, Seq<char>)>) -> Seq<Seq<char>> {
    env.map_values(|e: (Seq<char>, Seq<char>)| ps_env_line(e))
}

/// The `cmd` lines that set the variables, in order.
pub open spec fn cmd_env_lines(env: Seq<(Seq<char>, Seq<char>)>) -> Seq<Seq<char>> {
    env.map_values(|e: (Seq<char>, Seq<char>)| cmd_env_line(e))
}

/// A character that may stand in a plain `$env:NAME` reference.
pub open spec fn is_name_char(c: char) -> bool {
    ||| 'a' <= c <= 'z'
    ||| 'A' <= c <= 'Z'
    ||| '0' <= c <= '9'
    ||| c == '_'
}

/// A name made only of ASCII letters, digits and `_`, which PowerShell reads
/// after `$env:` as a whole.
pub open spec fn is_plain_name(k: Seq<char>) -> bool {
    k.len() > 0 && forall|i: int| 0 <= i < k.len() ==> is_name_char(#[trigger] k[i])
}

/// A name ready to stand between `${` and `}`: each `` ` `` and `}` is
/// preceded by a backtick.
pub open spec fn brace_escaped(k: Seq<char>) -> Seq<char>
    decreases k.len(),
{
    if k.len() == 0 {
        Seq::empty()
    } else {
        brace_escaped(k.drop_last()) + (if k.last() == '`' || k.last() == '}' {
            seq!['`', k.last()]
        } else {
            seq![k.last()]
        })
    }
}

/// The PowerShell reference to environment variable `k`: `$env:k` for a plain
/// name, else the braced form `${env:k}`, so that names such as
/// `CommonProgramFiles(x86)` are read whole.
pub open spec fn ps_env_ref(k: Seq<char>) -> Seq<char> {
    if is_plain_name(k) {
        "$env:"@ + k
    } else {
        "${env:"@ + brace_escaped(k) + "}"@
    }
}

/// The PowerShell line that sets one variable.
pub open spec fn ps_env_line(e: (Seq<char>, Seq<char>)) -> Seq<char> {
    ps_env_ref(e.0) + " = '"@ + ps_quoted(e.1) + "'"@
}

/// The `cmd` line that sets one variable.
pub open spec fn cmd_env_line(e: (Seq<char>, Seq<char>)) -> Seq<char> {
    "set \""@ + e.0 + "="@ + cmd_quoted(e.1) + "\""@
}

/// The lines of the PowerShell script for a plan given by its views.
pub open spec fn powershell_lines(
    env: Seq<(Seq<char>, Seq<char>)>,
    paths: Seq<Seq<char>>,
    cwd: Option<Seq<char>>,
) -> Seq<Seq<char>> {
    ps_env_lines(env) + (if paths.len() > 0 {
        seq![
            "$env:Path = '"@ + join(ps_quoted_all(paths), ";"@)
                + ";' + $env:Path"@,
        ]
    } else {
        Seq::empty()
    }) + (match cwd {
        Some(p) => seq!["Set-Location -LiteralPath '"@ + ps_quoted(p) + "'"@],
        None => Seq::empty(),
    })
}

/// The lines of the `cmd` script for a plan given by its views.
pub open spec fn cmd_lines(
    env: Seq<(Seq<char>, Seq<char>)>,
    paths: Seq<Seq<char>>,
    cwd: Option<Seq<char>>,
) -> Seq<Seq<char>> {
    cmd_env_lines(env) + (if paths.len() > 0 {
        seq![
            "set \"PATH="@ + join(cmd_quoted_all(paths), ";"@)
                + ";%PATH%\""@,
        ]
    } else {
        Seq::empty()
    }) + (match cwd {
        Some(p) => seq!["cd /d \""@ + cmd_quoted(p) + "\""@],
        None => Seq::empty(),
    })
}

/// The script for a plan given by its views: for PowerShell its lines joined
/// by line feeds, for `cmd` its lines joined by CR LF with a CR LF at the end.
pub open spec fn script_for(
    shell: ShellKind,
    env: Seq<(Seq<char>, Seq<char>)>,
    paths: Seq<Seq<char>>,
    cwd: Option<Seq<char>>,
) -> Seq<char> {
    match shell {
        ShellKind::Powershell => join(powershell_lines(env, paths, cwd), "\n"@),
        ShellKind::Cmd => join(cmd_lines(env, paths, cwd), "\r\n"@) + "\r\n"@,
    }
}

/// The script that applies `plan` in `shell`.
pub open spec fn plan_script(shell: ShellKind, plan: &ScriptPlan) -> Seq<char> {
    script_for(
        shell,
        plan.set_env.entries(),
        strings_view(plan.prepend_path@),
        opt_view(plan.cwd),
    )
}

// ---------------------------------------------------------------------------
// Functions
// ---------------------------------------------------------------------------

/// `value` ready to stand between single quotes in PowerShell.
pub fn ps_quote(value: &str) -> (r: String)
    ensures
        r@ == ps_quoted(value@),
{
    replace_char_exec(value, '\'', "''")
}

/// `value` ready to stand between double quotes in `cmd`.
pub fn cmd_quote(value: &str) -> (r: String)
    ensures
        r@ == cmd_quoted(value@),
{
    replace_char_exec(value, '"', "\"\"")
}

/// The PowerShell reference to environment variable `name`.
pub fn ps_env_ref_exec(name: &str) -> (r: String)
    ensures
        r@ == ps_env_ref(name@),
{
    let cs = to_chars(name);
    let mut plain = cs.len() > 0;
    let mut i: usize = 0;
    while i < cs.len()
        invariant
            cs@ == name@,
            0 <= i <= cs.len(),
            plain == (cs.len() > 0 && forall|k: int| 0 <= k < i ==> is_name_char(#[trigger] cs@[k])),
        decreases cs.len() - i,
    {
        let c = cs[i];
        let ok = ('a' <= c && c <= 'z') || ('A' <= c && c <= 'Z') || ('0' <= c && c <= '9') || c
            == '_';
        if !ok {
            plain = false;
        }
        i = i + 1;
    }
    let mut r = String::new();
    if plain {
        r.append("$env:");
        r.append(name);
    } else {
        r.append("${env:");
        let mut j: usize = 0;
        let ghost start = r@;
        while j < cs.len()
            invariant
                cs@ == name@,
                0 <= j <= cs.len(),
                start == "${env:"@,
                r@ == start + brace_escaped(cs@.take(j as int)),
            decreases cs.len() - j,
        {
            let c = cs[j];
            assert(cs@.take(j + 1).drop_last() =~= cs@.take(j as int));
            assert(cs@.take(j + 1).last() == c);
            let ghost before = r@;
            if c == '`' || c == '}' {
                push_char(&mut r, '`');
                push_char(&mut r, c);
                assert(r@ =~= before + seq!['`', c]);
            } else {
                push_char(&mut r, c);
                assert(r@ =~= before + seq![c]);
            }
            j = j + 1;
        }
        assert(cs@.take(cs.len() as int) =~= cs@);
        r.append("}");
    }
    r
}

/// The strings of `parts` joined by `sep`.
pub fn join_strings(parts: &Vec<String>, sep: &str) -> (r: String)
    ensures
        r@ == join(strings_view(parts@), sep@),
{
    let mut out = String::new();
    let mut i: usize = 0;
    while i < parts.len()
        invariant
            0 <= i <= parts@.len(),
            out@ == join(strings_view(parts@).take(i as int), sep@),
        decreases parts@.len() - i,
    {
        proof {
            lemma_join_push(strings_view(parts@).take(i as int), sep@, parts@[i as int]@);
            assert(strings_view(parts@).take(i + 1) =~= strings_view(parts@).take(i as int).push(
                parts@[i as int]@,
            ));
        }
        if i > 0 {
            out.append(sep);
        }
        out.append(parts[i].as_str());
        i = i + 1;
    }
    assert(strings_view(parts@).take(parts@.len() as int) =~= strings_view(parts@));
    out
}

/// The paths, each quoted by `quote`, joined by `;`.
fn quoted_path_list(paths: &Vec<String>, for_cmd: bool) -> (r: String)
    ensures
        for_cmd ==> r@ == join(cmd_quoted_all(strings_view(paths@)), ";"@),
        !for_cmd ==> r@ == join(ps_quoted_all(strings_view(paths@)), ";"@),
{
    let mut quoted: Vec<String> = Vec::new();
    let mut i: usize = 0;
    while i < paths.len()
        invariant
            0 <= i <= paths@.len(),
            for_cmd ==> strings_view(quoted@) == cmd_quoted_all(strings_view(paths@).take(i as int)),
            !for_cmd ==> strings_view(quoted@) == ps_quoted_all(strings_view(paths@).take(i as int)),
        decreases paths@.len() - i,
    {
        let q = if for_cmd {
            cmd_quote(paths[i].as_str())
        } else {
            ps_quote(paths[i].as_str())
        };
        let ghost before = quoted@;
        let ghost t = strings_view(paths@).take(i as int);
        let ghost t1 = strings_view(paths@).take(i + 1);
        assert(t1 =~= t.push(paths@[i as int]@));
        assert(cmd_quoted_all(t1) =~= cmd_quoted_all(t).push(cmd_quoted(paths@[i as int]@)));
        assert(ps_quoted_all(t1) =~= ps_quoted_all(t).push(ps_quoted(paths@[i as int]@)));
        quoted.push(q);
        assert(strings_view(quoted@) =~= strings_view(before).push(q@));
        i = i + 1;
    }
    assert(strings_view(paths@).take(paths@.len() as int) =~= strings_view(paths@));
    join_strings(&quoted, ";")
}

/// The lines of the script for `plan`, for either shell.
fn script_lines(plan: &ScriptPlan, for_cmd: bool) -> (r: Vec<String>)
    ensures
        for_cmd ==> strings_view(r@) == cmd_lines(
            plan.set_env.entries(),
            strings_view(plan.prepend_path@),
            opt_view(plan.cwd),
        ),
        !for_cmd ==> strings_view(r@) == powershell_lines(
            plan.set_env.entries(),
            strings_view(plan.prepend_path@),
            opt_view(plan.cwd),
        ),
{
    let ghost env = plan.set_env.entries();
    let ghost paths = strings_view(plan.prepend_path@);
    let ghost cwd = opt_view(plan.cwd);
    let mut lines: Vec<String> = Vec::new();
    let mut i: usize = 0;
    while i < plan.set_env.len()
        invariant
            0 <= i <= env.len(),
            env == plan.set_env.entries(),
            for_cmd ==> strings_view(lines@) == cmd_env_lines(env.take(i as int)),
            !for_cmd ==> strings_view(lines@) == ps_env_lines(env.take(i as int)),
        decreases env.len() - i,
    {
        let key = plan.set_env.key_at(i);
        let value = plan.set_env.value_at(i);
        let mut line = String::new();
        if for_cmd {
            line.append("set \"");
            line.append(key.as_str());
            line.append("=");
            let q = cmd_quote(value.as_str());
            line.append(q.as_str());
            line.append("\"");
        } else {
            let r = ps_env_ref_exec(key.as_str());
            line.append(r.as_str());
            line.append(" = '");
            let q = ps_quote(value.as_str());
            line.append(q.as_str());
            line.append("'");
        }
        let ghost before = lines@;
        let ghost t = env.take(i as int);
        let ghost t1 = env.take(i + 1);
        assert(t1 =~= t.push(env[i as int]));
        assert(cmd_env_lines(t1) =~= cmd_env_lines(t).push(cmd_env_line(env[i as int])));
        assert(ps_env_lines(t1) =~= ps_env_lines(t).push(ps_env_line(env[i as int])));
        lines.push(line);
        assert(strings_view(lines@) =~= strings_view(before).push(line@));
        i = i + 1;
    }
    assert(env.take(env.len() as int) =~= env);
    let ghost env_lines = strings_view(lines@);
    if plan.prepend_path.len() > 0 {
        let joined = quoted_path_list(&plan.prepend_path, for_cmd);
        let mut line = String::new();
        if for_cmd {
            line.append("set \"PATH=");
            line.append(joined.as_str());
            line.append(";%PATH%\"");
        } else {
            line.append("$env:Path = '");
            line.append(joined.as_str());
            line.append(";' + $env:Path");
        }
        lines.push(line);
    }
    let ghost with_path = strings_view(lines@);
    match &plan.cwd {
        Some(p) => {
            let mut line = String::new();
            if for_cmd {
                line.append("cd /d \"");
                let q = cmd_quote(p.as_str());
                line.append(q.as_str());
                line.append("\"");
            } else {
                line.append("Set-Location -LiteralPath '");
                let q = ps_quote(p.as_str());
                line.append(q.as_str());
                line.append("'");
            }
            lines.push(line);
        },
        None => {},
    }
    proof {
        if for_cmd {
            assert(strings_view(lines@) =~= cmd_lines(env, paths, cwd));
        } else {
            assert(strings_view(lines@) =~= powershell_lines(env, paths, cwd));
        }
    }
    lines
}

/// The PowerShell script that applies `plan` to the current session.
pub fn render_powershell_script(plan: &ScriptPlan) -> (r: String)
    ensures
        r@ == plan_script(ShellKind::Powershell, plan),
{
    let lines = script_lines(plan, false);
    join_strings(&lines, "\n")
}

/// The `cmd` script that applies `plan` to the current session.
pub fn render_cmd_script(plan: &ScriptPlan) -> (r: String)
    ensures
        r@ == plan_script(ShellKind::Cmd, plan),
{
    let lines = script_lines(plan, true);
    let mut r = join_strings(&lines, "\r\n");
    r.append("\r\n");
    r
}

/// The script that applies `plan` in `shell`.
pub fn render_script(shell: ShellKind, plan: &ScriptPlan) -> (r: String)
    ensures
        r@ == plan_script(shell, plan),
{
    match shell {
        ShellKind::Cmd => render_cmd_script(plan),
        ShellKind::Powershell => render_powershell_script(plan),
    }
}

// ---------------------------------------------------------------------------
// Laws
// ---------------------------------------------------------------------------

/// How a quoted text reads back when each doubled `c` stands for one `c`
/// (how PowerShell reads the text between single quotes, with `c` = `'`).
pub open spec fn undoubled(q: Seq<char>, c: char) -> Seq<char>
    decreases q.len(),
{
    if q.len() == 0 {
        Seq::empty()
    } else if q.len() >= 2 && q[0] == c && q[1] == c {
        seq![c] + undoubled(q.subrange(2, q.len() as int), c)
    } else {
        seq![q[0]] + undoubled(q.drop_first(), c)
    }
}

/// Replacing characters distributes over concatenation.
proof fn lemma_replace_char_add(a: Seq<char>, b: Seq<char>, c: char, rep: Seq<char>)
    ensures
        replace_char(a + b, c, rep) == replace_char(a, c, rep) + replace_char(b, c, rep),
    decreases b.len(),
{
    if b.len() == 0 {
        assert(a + b =~= a);
        assert(replace_char(a, c, rep) + replace_char(b, c, rep) =~= replace_char(a, c, rep));
    } else {
        lemma_replace_char_add(a, b.drop_last(), c, rep);
        assert((a + b).drop_last() =~= a + b.drop_last());
        assert((a + b).last() == b.last());
    }
}

/// Doubling every `c` and reading the doubled ones back gives the text again.
pub proof fn law_doubling_reads_back(s: Seq<char>, c: char)
    ensures
        undoubled(replace_char(s, c, seq![c, c]), c) == s,
    decreases s.len(),
{
    if s.len() > 0 {
        let rest = s.drop_first();
        law_doubling_reads_back(rest, c);
        assert(s =~= seq![s[0]] + rest);
        lemma_replace_char_add(seq![s[0]], rest, c, seq![c, c]);
        assert(seq![s[0]].drop_last() =~= Seq::<char>::empty());
        assert(replace_char(Seq::<char>::empty(), c, seq![c, c]) =~= Seq::<char>::empty());
        assert(seq![s[0]].last() == s[0]);
        let head = replace_char(seq![s[0]], c, seq![c, c]);
        let q = replace_char(s, c, seq![c, c]);
        if s[0] == c {
            assert(head =~= seq![c, c]);
            assert(q.subrange(2, q.len() as int) =~= replace_char(rest, c, seq![c, c]));
        } else {
            assert(head =~= seq![s[0]]);
            assert(q.drop_first() =~= replace_char(rest, c, seq![c, c]));
        }
    }
}

/// A value quoted for PowerShell reads back, between single quotes, as the value itself.
pub proof fn law_ps_quote_reads_back(s: Seq<char>)
    ensures
        undoubled(ps_quoted(s), '\'') == s,
{
    reveal_strlit("''");
    assert("''"@ =~= seq!['\'', '\'']);
    law_doubling_reads_back(s, '\'');
}

/// A value quoted for `cmd` has each `"` doubled, and undoing that gives the value.
pub proof fn law_cmd_quote_reads_back(s: Seq<char>)
    ensures
        undoubled(cmd_quoted(s), '"') == s,
{
    reveal_strlit("\"\"");
    assert("\"\""@ =~= seq!['"', '"']);
    law_doubling_reads_back(s, '"');
}

} // verus!
