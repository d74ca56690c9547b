//! Environment variables: lookup across sources, names, and the expansion
//! of `$NAME` / `${NAME}` references in a command line.
use vstd::prelude::*;

use super::str_map::EnvVarsMap;
use super::text::{chars_of, opt_view, push_char, push_str, string_of_range};
use vstd::utf8::encode_utf8;

verus! {

/// Whether `c` is a Unicode word character (the class `\w` of the `regex`
/// crate: Alphabetic, Join_Control, Decimal_Number, Mark or
/// Connector_Punctuation).
pub uninterp spec fn unicode_word_char(c: char) -> bool;

/// `[_0-9a-zA-Z]`.
pub open spec fn ascii_word_char(c: char) -> bool {
    ||| 48 <= (c as int) <= 57
    ||| 65 <= (c as int) <= 90
    ||| 97 <= (c as int) <= 122
    ||| c == '_'
}

/// Calls `regex_syntax::is_word_character`, the table behind `\w` in the
/// `regex` crate. Trusted: the result is `unicode_word_char(c)`, and for an
/// ASCII character it is `[_0-9a-zA-Z]` (its source tests that class first,
/// and its table holds no other ASCII character).
#[verifier::external_body]
fn is_word_character(c: char) -> (r: bool)
    ensures
        r == unicode_word_char(c),
        (c as int) < 128 ==> (r <==> ascii_word_char(c)),
{
    regex_syntax::is_word_character(c)
}

/// For each character of `t`, whether it is a word character.
pub open spec fn word_flags(t: Seq<char>) -> Seq<bool> {
    t.map_values(|c: char| unicode_word_char(c))
}

/// The end of the run of word characters (flags `w`) that starts at `i`.
pub open spec fn word_run_end(w: Seq<bool>, i: int) -> int
    decreases w.len() - i,
{
    if 0 <= i < w.len() && w[i] {
        word_run_end(w, i + 1)
    } else {
        i
    }
}

/// A run of word characters ends at the first unflagged position.
pub proof fn lemma_word_run_end(w: Seq<bool>, i: int)
    requires
        0 <= i,
    ensures
        i <= word_run_end(w, i),
        i <= w.len() ==> word_run_end(w, i) <= w.len(),
        forall|j: int| i <= j < word_run_end(w, i) ==> #[trigger] w[j],
        word_run_end(w, i) < w.len() ==> !w[word_run_end(w, i)],
    decreases w.len() - i,
{
    if 0 <= i < w.len() && w[i] {
        lemma_word_run_end(w, i + 1);
    }
}

/// The word flags of `text`, one call of the classifier per character. An
/// ASCII character is a word character exactly when it is `[_0-9a-zA-Z]`.
pub fn word_flags_of(text: &str) -> (v: Vec<bool>)
    ensures
        v@ == word_flags(text@),
        forall|i: int|
            0 <= i < text@.len() && (text@[i] as int) < 128 ==> (#[trigger] v@[i]
                <==> ascii_word_char(text@[i])),
{
    let t = chars_of(text);
    let mut v: Vec<bool> = Vec::new();
    let mut i: usize = 0;
    while i < t.len()
        invariant
            t@ == text@,
            i <= t@.len(),
            v@ == word_flags(text@).take(i as int),
            forall|j: int|
                0 <= j < i && (text@[j] as int) < 128 ==> (unicode_word_char(text@[j])
                    <==> ascii_word_char(text@[j])),
        decreases t.len() - i,
    {
        v.push(is_word_character(t[i]));
        i = i + 1;
        assert(v@ =~= word_flags(text@).take(i as int));
    }
    assert(v@ =~= word_flags(text@));
    v
}

/// The reference to a variable that starts at position `i` of `t`, as the
/// leftmost-first match of `\$\{?(\w+)\}?` there, word characters being those
/// flagged in `w`: the start and end of the name and the end of the reference.
pub open spec fn var_ref_at(t: Seq<char>, w: Seq<bool>, i: int) -> Option<(int, int, int)> {
    if 0 <= i < t.len() && t[i] == '$' {
        let ns = if i + 1 < t.len() && t[i + 1] == '{' {
            i + 2
        } else {
            i + 1
        };
        let ne = word_run_end(w, ns);
        if ne > ns {
            Some((ns, ne, if ne < t.len() && t[ne] == '}' { ne + 1 } else { ne }))
        } else {
            None
        }
    } else {
        None
    }
}

/// What a reference to `name` becomes.
pub open spec fn replacement(
    env: Map<Seq<char>, (Seq<char>, Seq<char>)>,
    name: Seq<char>,
    redact: bool,
) -> Seq<char> {
    if env.contains_key(name) && !redact {
        env[name].0
    } else if env.contains_key(name) {
        "[value of "@ + name + "]"@
    } else {
        "[unavailable value of "@ + name + "]"@
    }
}

/// `t` from position `i` on, with every reference replaced (word characters
/// flagged in `w`).
pub open spec fn replaced_from(
    env: Map<Seq<char>, (Seq<char>, Seq<char>)>,
    t: Seq<char>,
    w: Seq<bool>,
    redact: bool,
    i: int,
) -> Seq<char>
    decreases t.len() - i,
{
    if i < 0 || i >= t.len() || w.len() != t.len() {
        Seq::empty()
    } else {
        match var_ref_at(t, w, i) {
            Some(r) => {
                proof {
                    let ns = if i + 1 < t.len() && t[i + 1] == '{' {
                        i + 2
                    } else {
                        i + 1
                    };
                    lemma_word_run_end(w, ns);
                }
                replacement(env, t.subrange(r.0, r.1), redact) + replaced_from(
                    env,
                    t,
                    w,
                    redact,
                    r.2,
                )
            },
            None => seq![t[i]] + replaced_from(env, t, w, redact, i + 1),
        }
    }
}

/// `t` with every reference replaced.
pub open spec fn replaced(
    env: Map<Seq<char>, (Seq<char>, Seq<char>)>,
    t: Seq<char>,
    redact: bool,
) -> Seq<char> {
    replaced_from(env, t, word_flags(t), redact, 0)
}

fn push_replacement(result: &mut String, env_vars_map: &EnvVarsMap, name: &String, redact: bool)
    ensures
        final(result)@ == old(result)@ + replacement(env_vars_map@, name@, redact),
{
    match env_vars_map.get(name.as_str()) {
        Some(value) => {
            if redact {
                push_str(result, "[value of ");
                push_str(result, name.as_str());
                push_str(result, "]");
            } else {
                push_str(result, value.0.as_str());
            }
        },
        None => {
            push_str(result, "[unavailable value of ");
            push_str(result, name.as_str());
            push_str(result, "]");
        },
    }
}

/// Replaces every `$NAME` or `${NAME}` in `text` by the value of `NAME` in
/// `env_vars_map`. With `redact`, a known variable becomes
/// `[value of NAME]`; an unknown one always becomes
/// `[unavailable value of NAME]`.
///
/// Which characters are word characters is `unicode_word_char`; for ASCII
/// it is `[_0-9a-zA-Z]`, which the second clause gives for the characters
/// of `text`.
pub fn replace(env_vars_map: &EnvVarsMap, text: &str, redact: bool) -> (r: String)
    ensures
        r@ == replaced(env_vars_map@, text@, redact),
        forall|i: int|
            0 <= i < text@.len() && (text@[i] as int) < 128 ==> (unicode_word_char(
                #[trigger] text@[i],
            ) <==> ascii_word_char(text@[i])),
{
    let flags = word_flags_of(text);
    assert forall|i: int| 0 <= i < text@.len() && (text@[i] as int) < 128 implies (unicode_word_char(
        #[trigger] text@[i],
    ) <==> ascii_word_char(text@[i])) by {
        assert(flags@[i] == unicode_word_char(text@[i]));
    }
    replace_with_word_flags(env_vars_map, text, &flags, redact)
}

/// `replace`, with the word characters of `text` given by `flags`.
pub fn replace_with_word_flags(
    env_vars_map: &EnvVarsMap,
    text: &str,
    flags: &Vec<bool>,
    redact: bool,
) -> (r: String)
    requires
        flags@.len() == text@.len(),
    ensures
        r@ == replaced_from(env_vars_map@, text@, flags@, redact, 0),
{
    let t = chars_of(text);
    let n = t.len();
    let ghost env = env_vars_map@;
    let mut result = String::new();
    let mut i: usize = 0;
    while i < n
        invariant
            t@ == text@,
            n == t@.len(),
            i <= n,
            env == env_vars_map@,
            flags@.len() == n,
            result@ + replaced_from(env, text@, flags@, redact, i as int) == replaced_from(
                env,
                text@,
                flags@,
                redact,
                0,
            ),
        decreases n - i,
    {
        let ghost before = result@;
        if t[i] == '$' {
            let ns = if i + 1 < n && t[i + 1] == '{' {
                i + 2
            } else {
                i + 1
            };
            let mut ne = ns;
            while ne < n && flags[ne]
                invariant
                    t@ == text@,
                    n == t@.len(),
                    flags@.len() == n,
                    ns <= ne <= n,
                    word_run_end(flags@, ns as int) == word_run_end(flags@, ne as int),
                decreases n - ne,
            {
                ne = ne + 1;
            }
            if ne > ns {
                let name = string_of_range(&t, ns, ne);
                let e = if ne < n && t[ne] == '}' {
                    ne + 1
                } else {
                    ne
                };
                proof {
                    assert(var_ref_at(text@, flags@, i as int) == Some((ns as int, ne as int, e as int)));
                }
                push_replacement(&mut result, env_vars_map, &name, redact);
                proof {
                    let x = replacement(env, text@.subrange(ns as int, ne as int), redact);
                    assert(replaced_from(env, text@, flags@, redact, i as int) == x + replaced_from(
                        env,
                        text@,
                        flags@,
                        redact,
                        e as int,
                    ));
                    assert(result@ + replaced_from(env, text@, flags@, redact, e as int) =~= before
                        + replaced_from(env, text@, flags@, redact, i as int));
                }
                i = e;
                continue ;
            }
        }
        proof {
            assert(var_ref_at(text@, flags@, i as int) is None);
        }
        push_char(&mut result, t[i]);
        proof {
            assert(result@ + replaced_from(env, text@, flags@, redact, i + 1) =~= before
                + replaced_from(env, text@, flags@, redact, i as int));
        }
        i = i + 1;
    }
    result
}

/// The length of `s` in UTF-8 bytes, as `str::len` gives it.
pub open spec fn byte_len(s: Seq<char>) -> nat {
    (encode_utf8(s).len() as usize) as nat
}

/// The largest byte length of the keys `ks`, or 0.
pub open spec fn max_key_len(ks: Seq<Seq<char>>) -> nat
    decreases ks.len(),
{
    if ks.len() == 0 {
        0
    } else {
        let m = max_key_len(ks.drop_last());
        let l = byte_len(ks.last());
        if l > m {
            l
        } else {
            m
        }
    }
}

/// The largest byte length of the sources of `env` at the keys `ks`, or 0.
pub open spec fn max_source_len(env: Map<Seq<char>, (Seq<char>, Seq<char>)>, ks: Seq<Seq<char>>) -> nat
    decreases ks.len(),
{
    if ks.len() == 0 {
        0
    } else {
        let m = max_source_len(env, ks.drop_last());
        let l = byte_len(env[ks.last()].1);
        if l > m {
            l
        } else {
            m
        }
    }
}

/// `n` times `c`.
pub open spec fn repeated(c: char, n: nat) -> Seq<char> {
    Seq::new(n, |i: int| c)
}

/// `s` padded with spaces on the right to `w` characters (`{:<w$}`).
pub open spec fn padded(s: Seq<char>, w: nat) -> Seq<char> {
    if s.len() < w {
        s + repeated(' ', (w - s.len()) as nat)
    } else {
        s
    }
}

/// `s` with each space made a no-break space.
pub open spec fn no_break(s: Seq<char>) -> Seq<char> {
    s.map_values(|c: char| if c == ' ' { '\u{A0}' } else { c })
}

/// A horizontal rule of the box between the given corner pieces.
pub open spec fn box_rule(left: Seq<char>, mid: Seq<char>, right: Seq<char>, kw: nat, sw: nat) -> Seq<char> {
    left + repeated('─', kw) + mid + repeated('─', sw) + right
}

/// A row of the box.
pub open spec fn box_row(key: Seq<char>, source: Seq<char>, kw: nat, sw: nat) -> Seq<char> {
    "│ "@ + padded(key, kw) + " │ "@ + padded(source, sw) + " │"@
}

/// The lines of the table of variables: the keys in order with their
/// sources (never their values), nothing when there is no variable.
pub open spec fn box_lines(env: Map<Seq<char>, (Seq<char>, Seq<char>)>, ks: Seq<Seq<char>>) -> Seq<Seq<char>> {
    let kw = max_key_len(ks);
    let sw = max_source_len(env, ks);
    if ks.len() == 0 {
        Seq::empty()
    } else {
        seq![
            box_rule("┌─"@, "─┬─"@, "─┐"@, kw, sw),
            box_row("Key"@, "Source"@, kw, sw),
            box_rule("├─"@, "─┼─"@, "─┤"@, kw, sw),
        ] + Seq::new(ks.len(), |i: int| box_row(no_break(ks[i]), no_break(env[ks[i]].1), kw, sw))
            + seq![box_rule("└─"@, "─┴─"@, "─┘"@, kw, sw)]
    }
}

/// The table shows no value: two maps with the same keys and the same
/// sources give the same lines.
pub proof fn lemma_box_shows_no_values(
    env1: Map<Seq<char>, (Seq<char>, Seq<char>)>,
    env2: Map<Seq<char>, (Seq<char>, Seq<char>)>,
    ks: Seq<Seq<char>>,
)
    requires
        forall|i: int| 0 <= i < ks.len() ==> (#[trigger] env1[ks[i]]).1 == env2[ks[i]].1,
    ensures
        box_lines(env1, ks) == box_lines(env2, ks),
    decreases ks.len(),
{
    if ks.len() > 0 {
        let p = ks.drop_last();
        assert forall|i: int| 0 <= i < p.len() implies (#[trigger] env1[p[i]]).1 == env2[p[i]].1 by {
            assert(p[i] == ks[i]);
        }
        lemma_box_shows_no_values(env1, env2, p);
        assert(env1[ks[ks.len() - 1]].1 == env2[ks[ks.len() - 1]].1);
        lemma_max_source_len_same(env1, env2, ks);
        assert(box_lines(env1, ks) =~= box_lines(env2, ks));
    }
}

proof fn lemma_max_source_len_same(
    env1: Map<Seq<char>, (Seq<char>, Seq<char>)>,
    env2: Map<Seq<char>, (Seq<char>, Seq<char>)>,
    ks: Seq<Seq<char>>,
)
    requires
        forall|i: int| 0 <= i < ks.len() ==> (#[trigger] env1[ks[i]]).1 == env2[ks[i]].1,
    ensures
        max_source_len(env1, ks) == max_source_len(env2, ks),
    decreases ks.len(),
{
    if ks.len() > 0 {
        let p = ks.drop_last();
        assert forall|i: int| 0 <= i < p.len() implies (#[trigger] env1[p[i]]).1 == env2[p[i]].1 by {
            assert(p[i] == ks[i]);
        }
        lemma_max_source_len_same(env1, env2, p);
        assert(env1[ks[ks.len() - 1]].1 == env2[ks[ks.len() - 1]].1);
    }
}

fn push_repeated(s: &mut String, c: char, n: usize)
    ensures
        final(s)@ == old(s)@ + repeated(c, n as nat),
{
    let ghost start = s@;
    let mut i: usize = 0;
    while i < n
        invariant
            i <= n,
            s@ == start + repeated(c, i as nat),
        decreases n - i,
    {
        push_char(s, c);
        i = i + 1;
        assert(s@ =~= start + repeated(c, i as nat));
    }
}

fn push_padded(s: &mut String, t: &str, w: usize)
    ensures
        final(s)@ == old(s)@ + padded(t@, w as nat),
{
    let n = chars_of(t).len();
    push_str(s, t);
    if n < w {
        push_repeated(s, ' ', w - n);
    }
    assert(s@ =~= old(s)@ + padded(t@, w as nat));
}

fn no_break_string(t: &str) -> (r: String)
    ensures
        r@ == no_break(t@),
{
    let v = chars_of(t);
    let mut r = String::new();
    let mut i: usize = 0;
    while i < v.len()
        invariant
            v@ == t@,
            i <= v@.len(),
            r@ == no_break(t@.take(i as int)),
        decreases v.len() - i,
    {
        if v[i] == ' ' {
            push_char(&mut r, '\u{A0}');
        } else {
            push_char(&mut r, v[i]);
        }
        i = i + 1;
        assert(r@ =~= no_break(t@.take(i as int)));
    }
    assert(t@.take(v@.len() as int) =~= t@);
    r
}

fn box_rule_line(left: &str, mid: &str, right: &str, kw: usize, sw: usize) -> (r: String)
    ensures
        r@ == box_rule(left@, mid@, right@, kw as nat, sw as nat),
{
    let mut r = String::new();
    push_str(&mut r, left);
    push_repeated(&mut r, '─', kw);
    push_str(&mut r, mid);
    push_repeated(&mut r, '─', sw);
    push_str(&mut r, right);
    assert(r@ =~= box_rule(left@, mid@, right@, kw as nat, sw as nat));
    r
}

fn box_row_line(key: &str, source: &str, kw: usize, sw: usize) -> (r: String)
    ensures
        r@ == box_row(key@, source@, kw as nat, sw as nat),
{
    let mut r = String::new();
    push_str(&mut r, "│ ");
    push_padded(&mut r, key, kw);
    push_str(&mut r, " │ ");
    push_padded(&mut r, source, sw);
    push_str(&mut r, " │");
    assert(r@ =~= box_row(key@, source@, kw as nat, sw as nat));
    r
}

/// The lines of the box that lists the variables and where each comes from
/// (the values are not shown); no line when there is no variable.
pub fn print_variables_box(env_vars_map: &EnvVarsMap) -> (r: Vec<String>)
    ensures
        r@.map_values(|l: String| l@) == box_lines(env_vars_map@, env_vars_map.key_seq()),
{
    let n = env_vars_map.len();
    let ghost ks = env_vars_map.key_seq();
    let ghost env = env_vars_map@;
    let mut lines: Vec<String> = Vec::new();
    if n == 0 {
        assert(lines@.map_values(|l: String| l@) =~= box_lines(env, ks));
        return lines;
    }
    let mut kw: usize = 0;
    let mut sw: usize = 0;
    let mut i: usize = 0;
    while i < n
        invariant
            n == ks.len(),
            ks == env_vars_map.key_seq(),
            env == env_vars_map@,
            forall|k: Seq<char>| env.contains_key(k) <==> ks.contains(k),
            i <= n,
            kw == max_key_len(ks.take(i as int)),
            sw == max_source_len(env, ks.take(i as int)),
        decreases n - i,
    {
        proof {
            assert(ks.take(i + 1).drop_last() =~= ks.take(i as int));
        }
        let key = env_vars_map.key_at(i);
        let value = env_vars_map.value_at(i);
        let kl = key.as_str().len();
        let sl = value.1.as_str().len();
        proof {
            assert(ks.take(i + 1).last() == ks[i as int]);
            assert(ks.contains(ks[i as int]));
            assert(kl == byte_len(ks[i as int]));
            assert(value@ == env[ks[i as int]]);
            assert(sl == byte_len(env[ks[i as int]].1));
        }
        if kl > kw {
            kw = kl;
        }
        if sl > sw {
            sw = sl;
        }
        i = i + 1;
    }
    assert(ks.take(n as int) =~= ks);
    let ghost rows = Seq::new(
        ks.len(),
        |j: int| box_row(no_break(ks[j]), no_break(env[ks[j]].1), kw as nat, sw as nat),
    );
    lines.push(box_rule_line("┌─", "─┬─", "─┐", kw, sw));
    lines.push(box_row_line("Key", "Source", kw, sw));
    lines.push(box_rule_line("├─", "─┼─", "─┤", kw, sw));
    let ghost head = lines@.map_values(|l: String| l@);
    let mut j: usize = 0;
    while j < n
        invariant
            n == ks.len(),
            ks == env_vars_map.key_seq(),
            env == env_vars_map@,
            j <= n,
            head.len() == 3,
            rows == Seq::new(
                ks.len(),
                |j: int| box_row(no_break(ks[j]), no_break(env[ks[j]].1), kw as nat, sw as nat),
            ),
            lines@.map_values(|l: String| l@) == head + rows.take(j as int),
        decreases n - j,
    {
        let key = no_break_string(env_vars_map.key_at(j).as_str());
        let source = no_break_string(env_vars_map.value_at(j).1.as_str());
        let ghost before = lines@.map_values(|l: String| l@);
        lines.push(box_row_line(key.as_str(), source.as_str(), kw, sw));
        proof {
            assert(lines@.map_values(|l: String| l@) =~= before.push(rows[j as int]));
            assert(rows.take(j + 1) =~= rows.take(j as int).push(rows[j as int]));
        }
        j = j + 1;
    }
    let ghost body = lines@.map_values(|l: String| l@);
    lines.push(box_rule_line("└─", "─┴─", "─┘", kw, sw));
    proof {
        assert(rows.take(n as int) =~= rows);
        assert(lines@.map_values(|l: String| l@) =~= body.push(
            box_rule("└─"@, "─┴─"@, "─┘"@, kw as nat, sw as nat),
        ));
        assert(lines@.map_values(|l: String| l@) =~= box_lines(env, ks));
    }
    lines
}

/// A secret name may hold only `[a-zA-Z0-9_]`, at least one of them.
pub open spec fn valid_name(name: Seq<char>) -> bool {
    name.len() > 0 && forall|i: int| 0 <= i < name.len() ==> ascii_word_char(#[trigger] name[i])
}

/// Whether `name` is a valid variable name (`^[a-zA-Z0-9_]+$`).
pub fn verify_name(name: String) -> (r: bool)
    ensures
        r == valid_name(name@),
{
    let cs = chars_of(name.as_str());
    if cs.len() == 0 {
        return false;
    }
    let mut i: usize = 0;
    while i < cs.len()
        invariant
            cs@ == name@,
            i <= cs@.len(),
            forall|j: int| 0 <= j < i ==> ascii_word_char(#[trigger] cs@[j]),
        decreases cs.len() - i,
    {
        let c = cs[i];
        if !(('0' <= c && c <= '9') || ('A' <= c && c <= 'Z') || ('a' <= c && c <= 'z') || c
            == '_') {
            assert(!ascii_word_char(cs@[i as int]));
            return false;
        }
        i = i + 1;
    }
    true
}

/// The value of `name` in the first source that has it, in the order:
/// aliases, `.env` file, process, secrets sources, keyring.
pub open spec fn lookup_all(
    name: Seq<char>,
    aliases: Map<Seq<char>, (Seq<char>, Seq<char>)>,
    local: Map<Seq<char>, (Seq<char>, Seq<char>)>,
    process: Map<Seq<char>, (Seq<char>, Seq<char>)>,
    keyring: Map<Seq<char>, (Seq<char>, Seq<char>)>,
    sources: Map<Seq<char>, (Seq<char>, Seq<char>)>,
) -> Option<Seq<char>> {
    if aliases.contains_key(name) {
        Some(aliases[name].0)
    } else if local.contains_key(name) {
        Some(local[name].0)
    } else if process.contains_key(name) {
        Some(process[name].0)
    } else if sources.contains_key(name) {
        Some(sources[name].0)
    } else if keyring.contains_key(name) {
        Some(keyring[name].0)
    } else {
        None
    }
}

/// Get an environment variable from all sources, in the right order.
pub fn get_from_all(
    name: &str,
    aliases_env_vars: &EnvVarsMap,
    local_env_vars: &EnvVarsMap,
    process_env_vars: &EnvVarsMap,
    keyring_env_vars: &EnvVarsMap,
    sources_env_vars: &EnvVarsMap,
) -> (r: Option<String>)
    ensures
        opt_view(r) == lookup_all(
            name@,
            aliases_env_vars@,
            local_env_vars@,
            process_env_vars@,
            keyring_env_vars@,
            sources_env_vars@,
        ),
{
    if let Some(value) = aliases_env_vars.get(name) {
        return Some(value.0.clone());
    }
    if let Some(value) = local_env_vars.get(name) {
        return Some(value.0.clone());
    }
    if let Some(value) = process_env_vars.get(name) {
        return Some(value.0.clone());
    }
    if let Some(value) = sources_env_vars.get(name) {
        return Some(value.0.clone());
    }
    if let Some(value) = keyring_env_vars.get(name) {
        return Some(value.0.clone());
    }
    None
}

/// Redaction hides values: the redacted text depends only on which
/// variables are known, not on their values.
pub proof fn lemma_redacted_ignores_values(
    env1: Map<Seq<char>, (Seq<char>, Seq<char>)>,
    env2: Map<Seq<char>, (Seq<char>, Seq<char>)>,
    t: Seq<char>,
)
    requires
        env1.dom() == env2.dom(),
    ensures
        replaced(env1, t, true) == replaced(env2, t, true),
{
    lemma_redacted_from(env1, env2, t, word_flags(t), 0);
}

proof fn lemma_redacted_from(
    env1: Map<Seq<char>, (Seq<char>, Seq<char>)>,
    env2: Map<Seq<char>, (Seq<char>, Seq<char>)>,
    t: Seq<char>,
    w: Seq<bool>,
    i: int,
)
    requires
        env1.dom() == env2.dom(),
        0 <= i,
    ensures
        replaced_from(env1, t, w, true, i) == replaced_from(env2, t, w, true, i),
    decreases t.len() - i,
{
    if i < t.len() && w.len() == t.len() {
        match var_ref_at(t, w, i) {
            Some(r) => {
                let ns = if i + 1 < t.len() && t[i + 1] == '{' {
                    i + 2
                } else {
                    i + 1
                };
                lemma_word_run_end(w, ns);
                let name = t.subrange(r.0, r.1);
                assert(env1.contains_key(name) == env2.contains_key(name));
                lemma_redacted_from(env1, env2, t, w, r.2);
            },
            None => {
                lemma_redacted_from(env1, env2, t, w, i + 1);
            },
        }
    }
}

proof fn lemma_word_run_end_exact(w: Seq<bool>, i: int, k: int)
    requires
        0 <= i <= k <= w.len(),
        forall|j: int| i <= j < k ==> #[trigger] w[j],
        k == w.len() || !w[k],
    ensures
        word_run_end(w, i) == k,
    decreases k - i,
{
    if i < k {
        lemma_word_run_end_exact(w, i + 1, k);
    }
}

/// A reference gives back what the map holds: `${NAME}`, with the
/// characters of `NAME` flagged as word characters, becomes the value of
/// `NAME` (or the placeholder when `NAME` is unknown).
pub proof fn lemma_reference_gives_value(
    env: Map<Seq<char>, (Seq<char>, Seq<char>)>,
    name: Seq<char>,
    w: Seq<bool>,
)
    requires
        name.len() > 0,
        w.len() == name.len() + 3,
        forall|j: int| 2 <= j < name.len() + 2 ==> #[trigger] w[j],
        !w[name.len() + 2int],
    ensures
        replaced_from(env, "${"@ + name + "}"@, w, false, 0) == replacement(env, name, false),
        env.contains_key(name) ==> replaced_from(env, "${"@ + name + "}"@, w, false, 0)
            == env[name].0,
{
    let t = "${"@ + name + "}"@;
    reveal_strlit("${");
    reveal_strlit("}");
    assert(t.len() == name.len() + 3);
    assert(t[0] == '$');
    assert(t[1] == '{');
    assert(t[name.len() + 2int] == '}');
    lemma_word_run_end_exact(w, 2, name.len() + 2int);
    assert(var_ref_at(t, w, 0) == Some((2int, name.len() + 2int, name.len() + 3int)));
    assert(t.subrange(2, name.len() + 2int) =~= name);
    assert(replaced_from(env, t, w, false, name.len() + 3int) == Seq::<char>::empty());
    assert(replaced_from(env, t, w, false, 0) =~= replacement(env, name, false));
}

/// A text without `$` comes back unchanged.
pub proof fn lemma_no_reference_unchanged(
    env: Map<Seq<char>, (Seq<char>, Seq<char>)>,
    t: Seq<char>,
    redact: bool,
)
    requires
        !t.contains('$'),
    ensures
        replaced(env, t, redact) == t,
{
    lemma_no_reference_from(env, t, word_flags(t), redact, 0);
    assert(t.subrange(0, t.len() as int) =~= t);
}

proof fn lemma_no_reference_from(
    env: Map<Seq<char>, (Seq<char>, Seq<char>)>,
    t: Seq<char>,
    w: Seq<bool>,
    redact: bool,
    i: int,
)
    requires
        !t.contains('$'),
        w.len() == t.len(),
        0 <= i <= t.len(),
    ensures
        replaced_from(env, t, w, redact, i) == t.subrange(i, t.len() as int),
    decreases t.len() - i,
{
    if i < t.len() {
        if t[i] == '$' {
            assert(t.contains('$'));
        }
        lemma_no_reference_from(env, t, w, redact, i + 1);
        assert(t.subrange(i, t.len() as int) =~= seq![t[i]] + t.subrange(i + 1, t.len() as int));
    } else {
        assert(t.subrange(i, t.len() as int) =~= Seq::<char>::empty());
    }
}

/// When no variable is known, redaction changes nothing.
pub proof fn lemma_unknown_same_redacted(t: Seq<char>)
    ensures
        replaced(Map::empty(), t, true) == replaced(Map::empty(), t, false),
{
    lemma_unknown_from(t, word_flags(t), 0);
}

proof fn lemma_unknown_from(t: Seq<char>, w: Seq<bool>, i: int)
    requires
        0 <= i,
    ensures
        replaced_from(Map::empty(), t, w, true, i) == replaced_from(Map::empty(), t, w, false, i),
    decreases t.len() - i,
{
    if i < t.len() && w.len() == t.len() {
        match var_ref_at(t, w, i) {
            Some(r) => {
                let ns = if i + 1 < t.len() && t[i + 1] == '{' {
                    i + 2
                } else {
                    i + 1
                };
                lemma_word_run_end(w, ns);
                lemma_unknown_from(t, w, r.2);
            },
            None => {
                lemma_unknown_from(t, w, i + 1);
            },
        }
    }
}

proof fn lemma_plain_prefix(
    env: Map<Seq<char>, (Seq<char>, Seq<char>)>,
    t: Seq<char>,
    w: Seq<bool>,
    redact: bool,
    i: int,
    k: int,
)
    requires
        0 <= i <= k <= t.len(),
        w.len() == t.len(),
        forall|j: int| 0 <= j < k ==> #[trigger] t[j] != '$',
    ensures
        replaced_from(env, t, w, redact, i) == t.subrange(i, k) + replaced_from(
            env,
            t,
            w,
            redact,
            k,
        ),
    decreases k - i,
{
    if i < k {
        lemma_plain_prefix(env, t, w, redact, i + 1, k);
        assert(t.subrange(i, k) =~= seq![t[i]] + t.subrange(i + 1, k));
    } else {
        assert(t.subrange(i, k) =~= Seq::<char>::empty());
    }
}

/// `$NAME` and `${NAME}` are the same reference: after a text without `$`,
/// a name made of word characters gives the same result written either way
/// (braces are not word characters; for ASCII, `replace` states this).
pub proof fn lemma_dollar_same_as_braces(
    env: Map<Seq<char>, (Seq<char>, Seq<char>)>,
    p: Seq<char>,
    x: Seq<char>,
    redact: bool,
)
    requires
        !p.contains('$'),
        x.len() > 0,
        forall|i: int| 0 <= i < x.len() ==> unicode_word_char(#[trigger] x[i]),
        !unicode_word_char('{'),
        !unicode_word_char('}'),
    ensures
        replaced(env, p + "$"@ + x, redact) == replaced(env, p + "${"@ + x + "}"@, redact),
        replaced(env, p + "$"@ + x, redact) == p + replacement(env, x, redact),
{
    reveal_strlit("$");
    reveal_strlit("${");
    reveal_strlit("}");
    let k = p.len() as int;
    let t1 = p + "$"@ + x;
    let t2 = p + "${"@ + x + "}"@;
    let w1 = word_flags(t1);
    let w2 = word_flags(t2);
    let n1 = t1.len() as int;
    let n2 = t2.len() as int;
    assert(n1 == k + 1 + x.len());
    assert(n2 == k + 3 + x.len());
    assert forall|j: int| 0 <= j < k implies #[trigger] t1[j] != '$' by {
        assert(t1[j] == p[j]);
        if p[j] == '$' {
            assert(p.contains('$'));
        }
    }
    assert forall|j: int| 0 <= j < k implies #[trigger] t2[j] != '$' by {
        assert(t2[j] == p[j]);
        if p[j] == '$' {
            assert(p.contains('$'));
        }
    }
    lemma_plain_prefix(env, t1, w1, redact, 0, k);
    lemma_plain_prefix(env, t2, w2, redact, 0, k);
    assert(t1.subrange(0, k) =~= p);
    assert(t2.subrange(0, k) =~= p);
    // `$NAME`: the name runs to the end of the text.
    assert(t1[k] == '$');
    assert(t1[k + 1] == x[0]);
    if x[0] == '{' {
        assert(unicode_word_char(x[0]));
    }
    assert forall|j: int| k + 1 <= j < n1 implies #[trigger] w1[j] by {
        assert(t1[j] == x[j - k - 1]);
    }
    lemma_word_run_end_exact(w1, k + 1, n1);
    assert(var_ref_at(t1, w1, k) == Some((k + 1, n1, n1)));
    assert(t1.subrange(k + 1, n1) =~= x);
    assert(replaced_from(env, t1, w1, redact, n1) == Seq::<char>::empty());
    assert(replaced_from(env, t1, w1, redact, k) =~= replacement(env, x, redact));
    // `${NAME}`: the name stops at the closing brace, which the reference takes.
    assert(t2[k] == '$');
    assert(t2[k + 1] == '{');
    assert(t2[n2 - 1] == '}');
    assert(!w2[n2 - 1]);
    assert forall|j: int| k + 2 <= j < n2 - 1 implies #[trigger] w2[j] by {
        assert(t2[j] == x[j - k - 2]);
    }
    lemma_word_run_end_exact(w2, k + 2, n2 - 1);
    assert(var_ref_at(t2, w2, k) == Some((k + 2, n2 - 1, n2)));
    assert(t2.subrange(k + 2, n2 - 1) =~= x);
    assert(replaced_from(env, t2, w2, redact, n2) == Seq::<char>::empty());
    assert(replaced_from(env, t2, w2, redact, k) =~= replacement(env, x, redact));
}

/// The key column is as wide as the longest key (in bytes): no key is
/// longer, and some key is exactly that long; with no key it is 0.
pub proof fn lemma_key_width_is_longest_key(ks: Seq<Seq<char>>)
    ensures
        forall|i: int| 0 <= i < ks.len() ==> byte_len(#[trigger] ks[i]) <= max_key_len(ks),
        ks.len() == 0 ==> max_key_len(ks) == 0,
        ks.len() > 0 ==> exists|j: int|
            0 <= j < ks.len() && max_key_len(ks) == byte_len(#[trigger] ks[j]),
    decreases ks.len(),
{
    if ks.len() > 0 {
        let p = ks.drop_last();
        lemma_key_width_is_longest_key(p);
        assert forall|i: int| 0 <= i < ks.len() implies byte_len(#[trigger] ks[i]) <= max_key_len(
            ks,
        ) by {
            if i < p.len() {
                assert(ks[i] == p[i]);
            }
        }
        if p.len() == 0 || byte_len(ks.last()) > max_key_len(p) {
            assert(max_key_len(ks) == byte_len(ks[ks.len() - 1]));
        } else {
            let j = choose|j: int| 0 <= j < p.len() && max_key_len(p) == byte_len(#[trigger] p[j]);
            assert(ks[j] == p[j]);
            assert(max_key_len(ks) == byte_len(ks[j]));
        }
    }
}

/// The source column is as wide as the longest source (in bytes) of the
/// keys shown: no source is longer, and some source is exactly that long;
/// with no key it is 0.
pub proof fn lemma_source_width_is_longest_source(
    env: Map<Seq<char>, (Seq<char>, Seq<char>)>,
    ks: Seq<Seq<char>>,
)
    ensures
        forall|i: int| 0 <= i < ks.len() ==> byte_len((#[trigger] env[ks[i]]).1) <= max_source_len(env, ks),
        ks.len() == 0 ==> max_source_len(env, ks) == 0,
        ks.len() > 0 ==> exists|j: int|
            0 <= j < ks.len() && max_source_len(env, ks) == byte_len((#[trigger] env[ks[j]]).1),
    decreases ks.len(),
{
    if ks.len() > 0 {
        let p = ks.drop_last();
        lemma_source_width_is_longest_source(env, p);
        assert forall|i: int| 0 <= i < ks.len() implies byte_len((#[trigger] env[ks[i]]).1)
            <= max_source_len(env, ks) by {
            if i < p.len() {
                assert(ks[i] == p[i]);
            }
        }
        if p.len() == 0 || byte_len(env[ks.last()].1) > max_source_len(env, p) {
            assert(max_source_len(env, ks) == byte_len(env[ks[ks.len() - 1]].1));
        } else {
            let j = choose|j: int|
                0 <= j < p.len() && max_source_len(env, p) == byte_len((#[trigger] env[p[j]]).1);
            assert(ks[j] == p[j]);
            assert(max_source_len(env, ks) == byte_len(env[ks[j]].1));
        }
    }
}

proof fn lemma_word_run_end_shift(w: Seq<bool>, i: int, j: int)
    requires
        0 <= i <= j,
        i <= w.len(),
    ensures
        word_run_end(w, j) - i == word_run_end(w.skip(i), j - i),
    decreases w.len() - j,
{
    if j < w.len() && w[j] {
        assert(w.skip(i)[j - i] == w[j]);
        lemma_word_run_end_shift(w, i, j + 1);
    }
}

proof fn lemma_replaced_from_shift(
    env: Map<Seq<char>, (Seq<char>, Seq<char>)>,
    t: Seq<char>,
    w: Seq<bool>,
    redact: bool,
    i: int,
    j: int,
)
    requires
        0 <= i <= j,
        i <= t.len(),
        w.len() == t.len(),
    ensures
        replaced_from(env, t, w, redact, j) == replaced_from(env, t.skip(i), w.skip(i), redact, j - i),
    decreases t.len() - j,
{
    let t2 = t.skip(i);
    let w2 = w.skip(i);
    if j < t.len() {
        assert(t2[j - i] == t[j]);
        if j + 1 < t.len() {
            assert(t2[j - i + 1] == t[j + 1]);
        }
        let ns = if j + 1 < t.len() && t[j + 1] == '{' {
            j + 2
        } else {
            j + 1
        };
        lemma_word_run_end_shift(w, i, ns);
        lemma_word_run_end(w, ns);
        let ne = word_run_end(w, ns);
        if ne < t.len() {
            assert(t2[ne - i] == t[ne]);
        }
        match var_ref_at(t, w, j) {
            Some(r) => {
                assert(var_ref_at(t2, w2, j - i) == Some((r.0 - i, r.1 - i, r.2 - i)));
                assert(t.subrange(r.0, r.1) =~= t2.subrange(r.0 - i, r.1 - i));
                lemma_replaced_from_shift(env, t, w, redact, i, r.2);
            },
            None => {
                assert(var_ref_at(t2, w2, j - i) is None);
                lemma_replaced_from_shift(env, t, w, redact, i, j + 1);
            },
        }
    }
}

/// After a reference `$NAME`, the text goes on unchanged: following a text
/// without `$`, a name of word characters and then a rest that starts with
/// a character that is neither a word character nor `}`, the result is the
/// text before, the name's replacement, and the rest expanded on its own.
pub proof fn lemma_text_after_reference_kept(
    env: Map<Seq<char>, (Seq<char>, Seq<char>)>,
    p: Seq<char>,
    x: Seq<char>,
    rest: Seq<char>,
    redact: bool,
)
    requires
        !p.contains('$'),
        x.len() > 0,
        x[0] != '{',
        forall|i: int| 0 <= i < x.len() ==> unicode_word_char(#[trigger] x[i]),
        rest.len() > 0,
        rest[0] != '}',
        !unicode_word_char(rest[0]),
    ensures
        replaced(env, p + "$"@ + x + rest, redact) == p + replacement(env, x, redact) + replaced(
            env,
            rest,
            redact,
        ),
{
    reveal_strlit("$");
    let k = p.len() as int;
    let t = p + "$"@ + x + rest;
    let w = word_flags(t);
    let e = k + 1 + x.len();
    assert(t.len() == e + rest.len());
    assert forall|j: int| 0 <= j < k implies #[trigger] t[j] != '$' by {
        assert(t[j] == p[j]);
        if p[j] == '$' {
            assert(p.contains('$'));
        }
    }
    lemma_plain_prefix(env, t, w, redact, 0, k);
    assert(t.subrange(0, k) =~= p);
    assert(t[k] == '$');
    assert(t[k + 1] == x[0]);
    assert forall|j: int| k + 1 <= j < e implies #[trigger] w[j] by {
        assert(t[j] == x[j - k - 1]);
    }
    assert(t[e] == rest[0]);
    assert(!w[e]);
    lemma_word_run_end_exact(w, k + 1, e);
    assert(var_ref_at(t, w, k) == Some((k + 1, e, e)));
    assert(t.subrange(k + 1, e) =~= x);
    assert(replaced_from(env, t, w, redact, k) == replacement(env, x, redact) + replaced_from(
        env,
        t,
        w,
        redact,
        e,
    ));
    lemma_replaced_from_shift(env, t, w, redact, e, e);
    assert(t.skip(e) =~= rest);
    assert(w.skip(e) =~= word_flags(rest));
    assert(replaced(env, t, redact) =~= p + replacement(env, x, redact) + replaced(env, rest, redact));
}

} // verus!
