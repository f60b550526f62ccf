//! Capturing what `vcvarsall.bat` changes in the environment: the command
//! line that dumps the environment before and after it runs, and the
//! reading of that dump back into the variables that changed.
use vstd::prelude::*;

use crate::env_map::{entries_map, keys_sorted, key_lt, lemma_sorted_insert, sorted_insert, EnvMap};
use crate::text::{
    ascii_upper, find_from, occurs_at, is_whitespace, lemma_strip_both_ends, first_index_of, index_of_in, lemma_find_from,
    lemma_first_index_of_subrange, lemma_first_index_of_unique, line_at, lines, lines_from,
    strip_both, strip_bounds, string_from_range, to_ascii_upper, to_chars, find_from_exec, trim,
    TrimClass,
};

verus! {

/// Marker echoed before the environment dump taken before `vcvarsall.bat`.
pub const ENV_BEFORE_BEGIN: &'static str = "__EZCLI_ENV_BEFORE_BEGIN__";

/// Marker echoed after the environment dump taken before `vcvarsall.bat`.
pub const ENV_BEFORE_END: &'static str = "__EZCLI_ENV_BEFORE_END__";

/// Marker echoed before the environment dump taken after `vcvarsall.bat`.
pub const ENV_AFTER_BEGIN: &'static str = "__EZCLI_ENV_AFTER_BEGIN__";

/// Marker echoed after the environment dump taken after `vcvarsall.bat`.
pub const ENV_AFTER_END: &'static str = "__EZCLI_ENV_AFTER_END__";

// ---------------------------------------------------------------------------
// Specifications
// ---------------------------------------------------------------------------

/// The `cmd.exe` command line: dump the environment between the "before"
/// markers, call `vcvarsall.bat` with the architecture, dump it again between
/// the "after" markers.
pub open spec fn vcvars_command_line(vc_path: Seq<char>, arch: Seq<char>) -> Seq<char> {
    "echo "@ + ENV_BEFORE_BEGIN@ + " && set && echo "@ + ENV_BEFORE_END@ + " && call \""@ + vc_path
        + "\" "@ + arch + " && echo "@ + ENV_AFTER_BEGIN@ + " && set && echo "@ + ENV_AFTER_END@
}

/// The text between the first `begin` and the first `end` after it, without
/// carriage returns and line feeds at either end; `None` when a marker is missing.
pub open spec fn between_markers(text: Seq<char>, begin: Seq<char>, end: Seq<char>) -> Option<
    Seq<char>,
> {
    match find_from(text, begin, 0) {
        None => None,
        Some(b) => match find_from(text, end, b + begin.len()) {
            None => None,
            Some(e) => Some(strip_both(text.subrange(b + begin.len(), e), TrimClass::LineBreak)),
        },
    }
}

/// The (name, value) that one line of `set` output defines: the name is the
/// text before the first `=`, trimmed, and must not be empty; the value is
/// everything after that `=`.
pub open spec fn env_line_entry(line: Seq<char>) -> Option<(Seq<char>, Seq<char>)> {
    let p = first_index_of(line, '=', 0);
    if p < line.len() && trim(line.subrange(0, p)).len() > 0 {
        Some((trim(line.subrange(0, p)), line.subrange(p + 1, line.len() as int)))
    } else {
        None
    }
}

/// The entries after the lines `ls` are applied in order to `es`.
pub open spec fn apply_env_lines(es: Seq<(Seq<char>, Seq<char>)>, ls: Seq<Seq<char>>) -> Seq<
    (Seq<char>, Seq<char>),
>
    decreases ls.len(),
{
    if ls.len() == 0 {
        es
    } else {
        let next = match env_line_entry(ls[0]) {
            Some(kv) => sorted_insert(es, kv.0, kv.1),
            None => es,
        };
        apply_env_lines(next, ls.drop_first())
    }
}

/// The sorted entries that the `set` output `s` defines; a later line wins.
pub open spec fn parse_env(s: Seq<char>) -> Seq<(Seq<char>, Seq<char>)> {
    apply_env_lines(Seq::empty(), lines(s))
}

/// The "before" entries keyed by their ASCII upper-cased names; where two
/// names agree in upper case, the later entry wins.
pub open spec fn upper_key_map(es: Seq<(Seq<char>, Seq<char>)>) -> Map<Seq<char>, Seq<char>>
    decreases es.len(),
{
    if es.len() == 0 {
        Map::empty()
    } else {
        upper_key_map(es.drop_last()).insert(ascii_upper(es.last().0), es.last().1)
    }
}

/// An "after" entry that is new or whose value differs from the "before" value
/// under the same name, compared ignoring ASCII case.
pub open spec fn changed_in(before_upper: Map<Seq<char>, Seq<char>>) -> spec_fn(
    (Seq<char>, Seq<char>),
) -> bool {
    |e: (Seq<char>, Seq<char>)|
        !(before_upper.contains_key(ascii_upper(e.0)) && before_upper[ascii_upper(e.0)] == e.1)
}

/// The "after" entries that changed, in their order.
pub open spec fn env_diff(
    before: Seq<(Seq<char>, Seq<char>)>,
    after: Seq<(Seq<char>, Seq<char>)>,
) -> Seq<(Seq<char>, Seq<char>)> {
    after.filter(changed_in(upper_key_map(before)))
}

/// Why a marker search failed.
pub enum MarkerError {
    /// The begin marker does not occur in the text.
    BeginNotFound(String),
    /// The end marker does not occur after the begin marker.
    EndNotFound(String),
}

impl MarkerError {
    /// The message that describes the error.
    pub fn message(&self) -> (m: String)
        ensures
            m@ == match self {
                MarkerError::BeginNotFound(marker) => "begin marker not found: "@ + marker@,
                MarkerError::EndNotFound(marker) => "end marker not found: "@ + marker@,
            },
    {
        match self {
            MarkerError::BeginNotFound(marker) => {
                let mut m = String::new();
                m.append("begin marker not found: ");
                m.append(marker.as_str());
                m
            },
            MarkerError::EndNotFound(marker) => {
                let mut m = String::new();
                m.append("end marker not found: ");
                m.append(marker.as_str());
                m
            },
        }
    }
}

/// `e` is the error for `text` with these markers: the begin marker is
/// reported when it does not occur; the end marker when it does not occur
/// after the begin marker.
pub open spec fn marker_error_for(
    text: Seq<char>,
    begin: Seq<char>,
    end: Seq<char>,
    e: MarkerError,
) -> bool {
    match e {
        MarkerError::BeginNotFound(m) => find_from(text, begin, 0) is None && m@ == begin,
        MarkerError::EndNotFound(m) => find_from(text, begin, 0) is Some && between_markers(
            text,
            begin,
            end,
        ) is None && m@ == end,
    }
}

// ---------------------------------------------------------------------------
// Functions
// ---------------------------------------------------------------------------

/// The `cmd.exe` command line that dumps the environment, runs
/// `vcvarsall.bat` for `arch`, and dumps it again.
pub fn build_vcvars_command_line(vc_path: &str, arch: &str) -> (r: String)
    ensures
        r@ == vcvars_command_line(vc_path@, arch@),
{
    let mut r = String::new();
    r.append("echo ");
    r.append(ENV_BEFORE_BEGIN);
    r.append(" && set && echo ");
    r.append(ENV_BEFORE_END);
    r.append(" && call \"");
    r.append(vc_path);
    r.append("\" ");
    r.append(arch);
    r.append(" && echo ");
    r.append(ENV_AFTER_BEGIN);
    r.append(" && set && echo ");
    r.append(ENV_AFTER_END);
    r
}

/// The text between the first `begin_marker` and the first `end_marker`
/// after it, without line breaks at either end.
pub fn extract_between_markers<'a>(text: &'a str, begin_marker: &str, end_marker: &str) -> (r:
    Result<&'a str, MarkerError>)
    ensures
        match r {
            Ok(s) => between_markers(text@, begin_marker@, end_marker@) == Some(s@),
            Err(e) => marker_error_for(text@, begin_marker@, end_marker@, e),
        },
{
    let cs = to_chars(text);
    let bm = to_chars(begin_marker);
    let em = to_chars(end_marker);
    let begin = match find_from_exec(&cs, &bm, 0) {
        Some(b) => b,
        None => {
            return Err(MarkerError::BeginNotFound(begin_marker.to_string()));
        },
    };
    proof {
        lemma_find_from(cs@, bm@, 0);
        assert(occurs_at(cs@, bm@, begin as int));
        assert(begin + bm@.len() <= cs@.len());
    }
    assert(begin + bm.len() <= cs.len());
    let content_start = begin + bm.len();
    let end = match find_from_exec(&cs, &em, content_start) {
        Some(e) => e,
        None => {
            return Err(MarkerError::EndNotFound(end_marker.to_string()));
        },
    };
    proof {
        lemma_find_from(cs@, em@, content_start as int);
    }
    let (a, b) = strip_bounds(&cs, content_start, end, TrimClass::LineBreak);
    let out = text.substring_char(a, b);
    Ok(out)
}

/// The variables that `set` output defines, one `NAME=value` per line.
pub fn parse_env_block(output: &str) -> (r: EnvMap)
    ensures
        r.entries() == parse_env(output@),
{
    let cs = to_chars(output);
    let n = cs.len();
    let mut values = EnvMap::new();
    let mut i: usize = 0;
    while i < n
        invariant
            n == cs.len(),
            cs@ == output@,
            0 <= i <= n,
            apply_env_lines(values.entries(), lines_from(cs@, i as int)) == parse_env(output@),
        decreases n - i,
    {
        let e = index_of_in(&cs, '\n', i, n);
        proof {
            lemma_first_index_of_unique(cs@, '\n', i as int, e as int);
        }
        let le = if e < n && e > i && cs[e - 1] == '\r' {
            e - 1
        } else {
            e
        };
        let ghost line = cs@.subrange(i as int, le as int);
        assert(line == line_at(cs@, i as int));
        let p = index_of_in(&cs, '=', i, le);
        proof {
            lemma_first_index_of_subrange(cs@, '=', i as int, le as int, p as int);
            assert(lines_from(cs@, i as int) == seq![line] + lines_from(cs@, e + 1));
            assert((seq![line] + lines_from(cs@, e + 1))[0] == line);
            assert((seq![line] + lines_from(cs@, e + 1)).drop_first() =~= lines_from(cs@, e + 1));
        }
        if p < le {
            let (a, b) = strip_bounds(&cs, i, p, TrimClass::Whitespace);
            proof {
                assert(line.subrange(0, p - i) =~= cs@.subrange(i as int, p as int));
                assert(line.subrange(p - i + 1, line.len() as int) =~= cs@.subrange(
                    p + 1,
                    le as int,
                ));
            }
            if a < b {
                let key = string_from_range(&cs, a, b);
                let value = string_from_range(&cs, p + 1, le);
                values.insert(key, value);
            }
        }
        if e >= n {
            i = n;
        } else {
            i = e + 1;
        }
    }
    values
}

/// The "after" variables that are new or changed with respect to "before";
/// names are matched ignoring ASCII case.
pub fn diff_env_vars(before: EnvMap, after: EnvMap) -> (r: EnvMap)
    ensures
        r.entries() == env_diff(before.entries(), after.entries()),
{
    let mut before_normalized = EnvMap::new();
    let mut i: usize = 0;
    while i < before.len()
        invariant
            0 <= i <= before.entries().len(),
            before_normalized@ == upper_key_map(before.entries().take(i as int)),
        decreases before.entries().len() - i,
    {
        let key = to_ascii_upper(before.key_at(i).as_str());
        let value = before.value_at(i).clone();
        before_normalized.insert(key, value);
        i = i + 1;
        assert(before.entries().take(i as int).drop_last() =~= before.entries().take(i - 1));
    }
    assert(before.entries().take(before.entries().len() as int) =~= before.entries());
    let ghost upper = upper_key_map(before.entries());
    let ghost pred = changed_in(upper);
    after.check_sorted();
    let mut out = EnvMap::new();
    let mut j: usize = 0;
    while j < after.len()
        invariant
            0 <= j <= after.entries().len(),
            before_normalized@ == upper,
            pred == changed_in(upper),
            keys_sorted(after.entries()),
            out.entries() == after.entries().take(j as int).filter(pred),
        decreases after.entries().len() - j,
    {
        let key = after.key_at(j);
        let value = after.value_at(j);
        let up = to_ascii_upper(key.as_str());
        let unchanged = match before_normalized.get(up.as_str()) {
            Some(before_value) => *before_value == *value,
            None => false,
        };
        let ghost e = after.entries()[j as int];
        assert(after.entries().take(j + 1).drop_last() =~= after.entries().take(j as int));
        assert(after.entries().take(j + 1).last() == e);
        assert(up@ == ascii_upper(e.0));
        assert(pred(e) == !unchanged);
        reveal_with_fuel(Seq::filter, 1);
        if !unchanged {
            proof {
                let t = after.entries().take(j as int);
                assert forall|s: int| 0 <= s < t.len() implies key_lt(#[trigger] t[s].0, key@) by {
                    assert(t[s] == after.entries()[s]);
                }
                lemma_filter_keys_below(t, pred, key@);
            }
            out.push_greatest(key.clone(), value.clone());
        }
        j = j + 1;
    }
    assert(after.entries().take(after.entries().len() as int) =~= after.entries());
    out
}

/// Filtering keeps only entries already there: keys below a bound stay below it.
proof fn lemma_filter_keys_below(
    s: Seq<(Seq<char>, Seq<char>)>,
    p: spec_fn((Seq<char>, Seq<char>)) -> bool,
    k: Seq<char>,
)
    requires
        forall|j: int| 0 <= j < s.len() ==> key_lt(#[trigger] s[j].0, k),
    ensures
        forall|t: int| 0 <= t < s.filter(p).len() ==> key_lt(#[trigger] s.filter(p)[t].0, k),
    decreases s.len(),
{
    if s.len() > 0 {
        let init = s.drop_last();
        assert forall|j: int| 0 <= j < init.len() implies key_lt(#[trigger] init[j].0, k) by {
            assert(init[j] == s[j]);
        }
        lemma_filter_keys_below(init, p, k);
        reveal_with_fuel(Seq::filter, 1);
        assert(s.filter(p) == if p(s.last()) {
            init.filter(p).push(s.last())
        } else {
            init.filter(p)
        });
    }
}

/// What the environment capture computes from the decoded `cmd.exe` output:
/// the variables that `vcvarsall.bat` added or changed.
pub open spec fn env_changes(stdout: Seq<char>) -> Option<Seq<(Seq<char>, Seq<char>)>> {
    match between_markers(stdout, ENV_BEFORE_BEGIN@, ENV_BEFORE_END@) {
        None => None,
        Some(before) => match between_markers(stdout, ENV_AFTER_BEGIN@, ENV_AFTER_END@) {
            None => None,
            Some(after) => Some(env_diff(parse_env(before), parse_env(after))),
        },
    }
}

/// The variables that `vcvarsall.bat` added or changed, read from the decoded
/// output of the command line that `build_vcvars_command_line` builds.
pub fn env_changes_from_output(stdout: &str) -> (r: Result<EnvMap, MarkerError>)
    ensures
        match r {
            Ok(m) => env_changes(stdout@) == Some(m.entries()),
            Err(e) => if between_markers(stdout@, ENV_BEFORE_BEGIN@, ENV_BEFORE_END@) is None {
                marker_error_for(stdout@, ENV_BEFORE_BEGIN@, ENV_BEFORE_END@, e)
            } else {
                between_markers(stdout@, ENV_AFTER_BEGIN@, ENV_AFTER_END@) is None
                    && marker_error_for(stdout@, ENV_AFTER_BEGIN@, ENV_AFTER_END@, e)
            },
        },
{
    let before_text = match extract_between_markers(stdout, ENV_BEFORE_BEGIN, ENV_BEFORE_END) {
        Ok(t) => t,
        Err(e) => {
            return Err(e);
        },
    };
    let after_text = match extract_between_markers(stdout, ENV_AFTER_BEGIN, ENV_AFTER_END) {
        Ok(t) => t,
        Err(e) => {
            return Err(e);
        },
    };
    let before_value = parse_env_block(before_text);
    let after_value = parse_env_block(after_text);
    Ok(diff_env_vars(before_value, after_value))
}

// ---------------------------------------------------------------------------
// Laws
// ---------------------------------------------------------------------------

/// The map that the lines `ls` define on top of `m`, each line setting its
/// variable; a later line wins.
pub open spec fn apply_env_lines_map(m: Map<Seq<char>, Seq<char>>, ls: Seq<Seq<char>>) -> Map<
    Seq<char>,
    Seq<char>,
>
    decreases ls.len(),
{
    if ls.len() == 0 {
        m
    } else {
        let next = match env_line_entry(ls[0]) {
            Some(kv) => m.insert(kv.0, kv.1),
            None => m,
        };
        apply_env_lines_map(next, ls.drop_first())
    }
}

/// A variable name: not empty, no whitespace at either end.
pub open spec fn is_env_name(k: Seq<char>) -> bool {
    k.len() > 0 && !is_whitespace(k[0]) && !is_whitespace(k.last())
}

proof fn lemma_apply_env_lines(es: Seq<(Seq<char>, Seq<char>)>, ls: Seq<Seq<char>>)
    requires
        keys_sorted(es),
        forall|t: int| 0 <= t < es.len() ==> is_env_name(#[trigger] es[t].0),
    ensures
        keys_sorted(apply_env_lines(es, ls)),
        forall|t: int|
            0 <= t < apply_env_lines(es, ls).len() ==> is_env_name(
                #[trigger] apply_env_lines(es, ls)[t].0,
            ),
        entries_map(apply_env_lines(es, ls)) == apply_env_lines_map(entries_map(es), ls),
    decreases ls.len(),
{
    if ls.len() > 0 {
        match env_line_entry(ls[0]) {
            Some(kv) => {
                let line = ls[0];
                let p = first_index_of(line, '=', 0);
                lemma_strip_both_ends(line.subrange(0, p), TrimClass::Whitespace);
                lemma_sorted_insert(es, kv.0, kv.1);
                let next = sorted_insert(es, kv.0, kv.1);
                assert forall|t: int| 0 <= t < next.len() implies is_env_name(#[trigger] next[t].0) by {
                    if next[t] != kv {
                        let j = choose|j: int| 0 <= j < es.len() && es[j] == next[t];
                        assert(is_env_name(es[j].0));
                    }
                }
                lemma_apply_env_lines(next, ls.drop_first());
            },
            None => {
                lemma_apply_env_lines(es, ls.drop_first());
            },
        }
    }
}

/// Reading `set` output gives sorted entries whose names are not empty and
/// have no surrounding whitespace, and they stand for the map in which each
/// variable has the value of its last line.
pub proof fn law_parse_env(s: Seq<char>)
    ensures
        keys_sorted(parse_env(s)),
        forall|t: int| 0 <= t < parse_env(s).len() ==> is_env_name(#[trigger] parse_env(s)[t].0),
        entries_map(parse_env(s)) == apply_env_lines_map(Map::empty(), lines(s)),
{
    lemma_apply_env_lines(Seq::empty(), lines(s));
    assert(entries_map(Seq::<(Seq<char>, Seq<char>)>::empty()) =~= Map::empty());
}

/// Every element that filtering keeps was in the sequence and passes the test.
proof fn lemma_filter_subset<A>(s: Seq<A>, p: spec_fn(A) -> bool)
    ensures
        forall|t: int| 0 <= t < s.filter(p).len() ==> s.contains(#[trigger] s.filter(p)[t]) && p(
            s.filter(p)[t],
        ),
    decreases s.len(),
{
    reveal_with_fuel(Seq::filter, 1);
    if s.len() > 0 {
        let init = s.drop_last();
        lemma_filter_subset(init, p);
        assert forall|t: int| 0 <= t < s.filter(p).len() implies s.contains(
            #[trigger] s.filter(p)[t],
        ) && p(s.filter(p)[t]) by {
            if t < init.filter(p).len() {
                assert(s.filter(p)[t] == init.filter(p)[t]);
                let j = choose|j: int| 0 <= j < init.len() && init[j] == init.filter(p)[t];
                assert(s[j] == init[j]);
            } else {
                assert(s.filter(p)[t] == s.last());
                assert(s[s.len() - 1] == s.last());
            }
        }
    }
}

/// Names that agree ignoring ASCII case belong to one entry at most.
pub open spec fn no_case_collisions(es: Seq<(Seq<char>, Seq<char>)>) -> bool {
    forall|i: int, j: int|
        0 <= i < es.len() && 0 <= j < es.len() && i != j ==> ascii_upper(#[trigger] es[i].0)
            != ascii_upper(#[trigger] es[j].0)
}

/// Without case collisions, the upper-cased map holds each entry's value
/// under its upper-cased name, and nothing else.
proof fn lemma_upper_key_map(es: Seq<(Seq<char>, Seq<char>)>)
    requires
        no_case_collisions(es),
    ensures
        forall|j: int|
            0 <= j < es.len() ==> #[trigger] upper_key_map(es).contains_key(ascii_upper(es[j].0))
                && upper_key_map(es)[ascii_upper(es[j].0)] == es[j].1,
        forall|k: Seq<char>|
            #[trigger] upper_key_map(es).contains_key(k) ==> exists|j: int|
                0 <= j < es.len() && ascii_upper(es[j].0) == k,
    decreases es.len(),
{
    if es.len() > 0 {
        let init = es.drop_last();
        assert(no_case_collisions(init)) by {
            assert forall|i: int, j: int|
                0 <= i < init.len() && 0 <= j < init.len() && i != j implies ascii_upper(
                #[trigger] init[i].0,
            ) != ascii_upper(#[trigger] init[j].0) by {
                assert(init[i] == es[i] && init[j] == es[j]);
            }
        }
        lemma_upper_key_map(init);
        assert forall|j: int| 0 <= j < es.len() implies #[trigger] upper_key_map(es).contains_key(
            ascii_upper(es[j].0),
        ) && upper_key_map(es)[ascii_upper(es[j].0)] == es[j].1 by {
            if j < es.len() - 1 {
                assert(init[j] == es[j]);
                assert(upper_key_map(init).contains_key(ascii_upper(init[j].0)));
                assert(ascii_upper(es[j].0) != ascii_upper(es[es.len() - 1].0));
            }
        }
        assert forall|k: Seq<char>| #[trigger] upper_key_map(es).contains_key(k) implies exists|j: int|
            0 <= j < es.len() && ascii_upper(es[j].0) == k by {
            if k != ascii_upper(es.last().0) {
                assert(upper_key_map(init).contains_key(k));
                let j = choose|j: int| 0 <= j < init.len() && ascii_upper(init[j].0) == k;
                assert(es[j] == init[j]);
            } else {
                assert(ascii_upper(es[es.len() - 1].0) == k);
            }
        }
    }
}

/// What the diff keeps: entries of "after" only, and, when "before" has no
/// two names that agree ignoring ASCII case, exactly the "after" entries for
/// which "before" has no entry with the same name (ignoring ASCII case) and
/// the same value.
pub proof fn law_diff_entries(
    before: Seq<(Seq<char>, Seq<char>)>,
    after: Seq<(Seq<char>, Seq<char>)>,
    e: (Seq<char>, Seq<char>),
)
    ensures
        env_diff(before, after).contains(e) ==> after.contains(e),
        no_case_collisions(before) && after.contains(e) ==> (env_diff(before, after).contains(e)
            <==> !exists|j: int|
            0 <= j < before.len() && ascii_upper(#[trigger] before[j].0) == ascii_upper(e.0)
                && before[j].1 == e.1),
{
    let p = changed_in(upper_key_map(before));
    lemma_filter_subset(after, p);
    if env_diff(before, after).contains(e) {
        let t = choose|t: int| 0 <= t < env_diff(before, after).len() && env_diff(before, after)[t] == e;
        assert(after.contains(env_diff(before, after)[t]));
    }
    if no_case_collisions(before) && after.contains(e) {
        lemma_upper_key_map(before);
        let m = upper_key_map(before);
        let i = choose|i: int| 0 <= i < after.len() && after[i] == e;
        if !p(e) {
            assert(m.contains_key(ascii_upper(e.0)));
            let j = choose|j: int| 0 <= j < before.len() && ascii_upper(before[j].0) == ascii_upper(e.0);
            assert(m[ascii_upper(before[j].0)] == before[j].1);
            if env_diff(before, after).contains(e) {
                let t = choose|t: int|
                    0 <= t < env_diff(before, after).len() && env_diff(before, after)[t] == e;
                assert(p(env_diff(before, after)[t]));
            }
        } else {
            after.lemma_filter_contains(p, i);
            if exists|j: int|
                0 <= j < before.len() && ascii_upper(#[trigger] before[j].0) == ascii_upper(e.0)
                    && before[j].1 == e.1 {
                let j = choose|j: int|
                    0 <= j < before.len() && ascii_upper(#[trigger] before[j].0) == ascii_upper(e.0)
                        && before[j].1 == e.1;
                assert(m.contains_key(ascii_upper(before[j].0)));
            }
        }
    }
}

/// Comparing a snapshot with itself finds no change, when no two of its
/// names agree ignoring ASCII case.
pub proof fn law_diff_of_same_is_empty(es: Seq<(Seq<char>, Seq<char>)>)
    requires
        no_case_collisions(es),
    ensures
        env_diff(es, es).len() == 0,
{
    let p = changed_in(upper_key_map(es));
    lemma_filter_subset(es, p);
    lemma_upper_key_map(es);
    if env_diff(es, es).len() > 0 {
        let e = env_diff(es, es)[0];
        assert(es.contains(e) && p(e));
        let j = choose|j: int| 0 <= j < es.len() && es[j] == e;
        assert(upper_key_map(es).contains_key(ascii_upper(es[j].0)));
    }
}

} // verus!
